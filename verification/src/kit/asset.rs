//! Classification of kit archive entries into assets.

use vstd::prelude::*;

use crate::kit::resources::{valid_key, Key};

verus! {

/// The name part of a tile asset path: what stands between the
/// directory prefix and the file extension.
pub open spec fn tile_name(path: Seq<char>) -> Seq<char> {
    path.subrange(6, path.len() - 5)
}

/// Whether a path names a tile asset: directly under the tile
/// directory, with the JSON extension and a valid key between.
pub open spec fn is_tile_path(path: Seq<char>) -> bool {
    &&& path.len() >= 12
    &&& path.subrange(0, 6) == seq!['t', 'i', 'l', 'e', 's', '/']
    &&& path.subrange(path.len() - 5, path.len() as int) == seq!['.', 'j', 's', 'o', 'n']
    &&& valid_key(tile_name(path))
}

/// Whether the characters name a file with the given extension: they
/// end with the suffix, and a file-name stem stands before it, so a
/// bare or hidden file whose whole name is the suffix does not count.
pub open spec fn named_with(s: Seq<char>, suffix: Seq<char>) -> bool {
    &&& s.len() > suffix.len()
    &&& s.subrange(s.len() - suffix.len(), s.len() as int) == suffix
    &&& s[s.len() - suffix.len() - 1] != '/'
}

/// Decides whether a source file belongs in a kit archive: model and
/// sprite files are packed, anything else is skipped.
pub fn is_pack_source(name: &str) -> (r: bool)
    ensures
        r == (named_with(name@, seq!['.', 't', 'o', 'm', 'l']) || named_with(
            name@,
            seq!['.', 'p', 'n', 'g'],
        )),
{
    let n = name.unicode_len();
    let toml = n >= 6 && name.get_char(n - 6) != '/' && name.get_char(n - 5) == '.'
        && name.get_char(n - 4) == 't' && name.get_char(n - 3) == 'o' && name.get_char(n - 2)
        == 'm' && name.get_char(n - 1) == 'l';
    let png = n >= 5 && name.get_char(n - 5) != '/' && name.get_char(n - 4) == '.'
        && name.get_char(n - 3) == 'p' && name.get_char(n - 2) == 'n' && name.get_char(n - 1)
        == 'g';
    proof {
        let s = name@;
        if toml {
            assert(s.subrange(s.len() - 5, s.len() as int) =~= seq!['.', 't', 'o', 'm', 'l']);
        } else if n >= 6 && named_with(s, seq!['.', 't', 'o', 'm', 'l']) {
            let sfx = s.subrange(s.len() - 5, s.len() as int);
            assert(sfx[0] == s[n - 5] && sfx[1] == s[n - 4] && sfx[2] == s[n - 3] && sfx[3] == s[n
                - 2] && sfx[4] == s[n - 1]);
        }
        if png {
            assert(s.subrange(s.len() - 4, s.len() as int) =~= seq!['.', 'p', 'n', 'g']);
        } else if n >= 5 && named_with(s, seq!['.', 'p', 'n', 'g']) {
            let sfx = s.subrange(s.len() - 4, s.len() as int);
            assert(sfx[0] == s[n - 4] && sfx[1] == s[n - 3] && sfx[2] == s[n - 2] && sfx[3] == s[n
                - 1]);
        }
    }
    toml || png
}

/// An asset named by a kit archive entry: its key and its kind.
pub struct Asset {
    /// The asset's key, taken from the file name.
    pub name: Key,
    /// What the asset holds.
    pub kind: Kind,
}

/// The category an asset belongs to.
#[derive(Clone, Copy, Debug, Eq, PartialEq, Structural)]
pub enum Kind {
    Tile,
}

impl Asset {
    /// Classifies an archive path. A path parses exactly when it lies
    /// directly under the tile directory, carries the JSON extension,
    /// and has a valid key for its file name.
    pub fn parse_path(path: &str) -> (r: Option<Asset>)
        ensures
            r is Some <==> is_tile_path(path@),
            r matches Some(a) ==> a.name@ == tile_name(path@) && a.kind == Kind::Tile,
    {
        let n = path.unicode_len();
        if n < 12 {
            return None;
        }
        if !(path.get_char(0) == 't' && path.get_char(1) == 'i' && path.get_char(2) == 'l'
            && path.get_char(3) == 'e' && path.get_char(4) == 's' && path.get_char(5) == '/') {
            proof {
                if is_tile_path(path@) {
                    let prefix = path@.subrange(0, 6);
                    assert(prefix[0] == path@[0] && prefix[1] == path@[1] && prefix[2] == path@[2]
                        && prefix[3] == path@[3] && prefix[4] == path@[4] && prefix[5]
                        == path@[5]);
                }
            }
            return None;
        }
        if !(path.get_char(n - 5) == '.' && path.get_char(n - 4) == 'j' && path.get_char(n - 3)
            == 's' && path.get_char(n - 2) == 'o' && path.get_char(n - 1) == 'n') {
            proof {
                if is_tile_path(path@) {
                    let suffix = path@.subrange(path@.len() - 5, path@.len() as int);
                    assert(suffix[0] == path@[n - 5] && suffix[1] == path@[n - 4] && suffix[2]
                        == path@[n - 3] && suffix[3] == path@[n - 2] && suffix[4] == path@[n - 1]);
                }
            }
            return None;
        }
        let name = path.substring_char(6, n - 5);
        proof {
            assert(path@.subrange(0, 6) =~= seq!['t', 'i', 'l', 'e', 's', '/']);
            assert(path@.subrange(path@.len() - 5, path@.len() as int) =~= seq![
                '.',
                'j',
                's',
                'o',
                'n',
            ]);
        }
        match Key::from_str(name) {
            Ok(key) => Some(Asset { name: key, kind: Kind::Tile }),
            Err(_) => None,
        }
    }
}

} // verus!
