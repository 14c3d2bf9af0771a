//! Resource keys and the keyed resource store.

use vstd::prelude::*;

verus! {

/// Whether the character may appear in a resource key.
pub open spec fn is_key_char(c: char) -> bool {
    ('0' <= c && c <= '9') || ('a' <= c && c <= 'z') || ('A' <= c && c <= 'Z') || c == '_'
}

/// Whether the characters form a valid resource key: non-empty, made
/// of digits, ASCII letters and underscores alone.
pub open spec fn valid_key(s: Seq<char>) -> bool {
    s.len() > 0 && forall|i: int| 0 <= i < s.len() ==> is_key_char(#[trigger] s[i])
}

/// The name of a resource, validated at construction.
#[derive(Debug, Eq, Hash, PartialEq)]
pub struct Key {
    text: String,
}

impl View for Key {
    type V = Seq<char>;

    closed spec fn view(&self) -> Seq<char> {
        self.text@
    }
}

impl Key {
    /// Holds of every value that can exist at run time: the characters
    /// form a valid key.
    #[verifier::type_invariant]
    pub closed spec fn wf(self) -> bool {
        valid_key(self@)
    }

    /// Parses a key, accepting exactly the valid key strings. The
    /// rejection carries the offending string.
    pub fn from_str(src: &str) -> (r: Result<Key, ParseError>)
        ensures
            r is Ok <==> valid_key(src@),
            r matches Ok(k) ==> k@ == src@,
            r matches Err(e) ==> e.0@ == src@,
    {
        let n = src.unicode_len();
        if n == 0 {
            return Err(ParseError(src.to_owned()));
        }
        let mut i: usize = 0;
        while i < n
            invariant
                i <= n,
                n == src@.len(),
                forall|j: int| 0 <= j < i ==> is_key_char(#[trigger] src@[j]),
            decreases n - i,
        {
            let c = src.get_char(i);
            if !is_key_char_exec(c) {
                return Err(ParseError(src.to_owned()));
            }
            i += 1;
        }
        Ok(Key { text: src.to_owned() })
    }

    /// The key's characters.
    pub fn get(&self) -> (r: &str)
        ensures
            r@ == self@,
    {
        self.text.as_str()
    }
}

/// Decides whether the character may appear in a resource key.
fn is_key_char_exec(c: char) -> (r: bool)
    ensures
        r == is_key_char(c),
{
    ('0' <= c && c <= '9') || ('a' <= c && c <= 'z') || ('A' <= c && c <= 'Z') || c == '_'
}

/// Decides character-wise equality of two strings.
fn str_eq(a: &str, b: &str) -> (r: bool)
    ensures
        r == (a@ == b@),
{
    let na = a.unicode_len();
    let nb = b.unicode_len();
    if na != nb {
        return false;
    }
    let mut i: usize = 0;
    while i < na
        invariant
            i <= na,
            na == a@.len(),
            na == b@.len(),
            forall|j: int| 0 <= j < i ==> a@[j] == b@[j],
        decreases na - i,
    {
        if a.get_char(i) != b.get_char(i) {
            return false;
        }
        i += 1;
    }
    proof {
        assert(a@ =~= b@);
    }
    true
}

/// Rejection of a string that is not a valid key, carrying the string.
#[derive(Debug)]
pub struct ParseError(pub String);

/// Pushing an entry under a fresh name keeps the names unique.
proof fn lemma_push_keeps_unique<A>(olds: Seq<(Key, A)>, news: Seq<(Key, A)>, name: Seq<char>)
    requires
        forall|i: int, j: int| 0 <= i < j < olds.len() ==> (#[trigger] olds[i]).0@ != (#[trigger] olds[j]).0@,
        !(exists|i: int| 0 <= i < olds.len() && (#[trigger] olds[i]).0@ == name),
        news.len() == olds.len() + 1,
        forall|i: int| 0 <= i < olds.len() ==> #[trigger] news[i] == olds[i],
        news[olds.len() as int].0@ == name,
    ensures
        forall|i: int, j: int| 0 <= i < j < news.len() ==> (#[trigger] news[i]).0@ != (#[trigger] news[j]).0@,
{
    assert forall|i: int, j: int|
        0 <= i < j < news.len() implies (#[trigger] news[i]).0@ != (#[trigger] news[j]).0@ by {
        if j == olds.len() {
            assert(news[i] == olds[i]);
        }
    }
}

/// Resources held under unique keys, looked up by name.
pub struct Resources<A> {
    items: Vec<(Key, A)>,
}

impl<A> Resources<A> {
    /// The store's invariant: no two entries share a name.
    pub open spec fn wf(self) -> bool {
        forall|i: int, j: int|
            0 <= i < j < self.spec_entries().len() ==> (#[trigger] self.spec_entries()[i]).0@ != (
            #[trigger] self.spec_entries()[j]).0@
    }

    /// The stored entries, oldest first.
    pub closed spec fn spec_entries(self) -> Seq<(Key, A)> {
        self.items@
    }

    /// Whether a resource is stored under the given name.
    pub open spec fn spec_contains(self, name: Seq<char>) -> bool {
        exists|i: int|
            0 <= i < self.spec_entries().len() && (#[trigger] self.spec_entries()[i]).0@ == name
    }

    /// The resource stored under the given name.
    pub open spec fn spec_get(self, name: Seq<char>) -> A {
        self.spec_entries()[choose|i: int|
            0 <= i < self.spec_entries().len() && (#[trigger] self.spec_entries()[i]).0@
                == name].1
    }

    /// Returns the empty store.
    pub fn new() -> (r: Self)
        ensures
            r.spec_entries() == Seq::<(Key, A)>::empty(),
            r.wf(),
    {
        Self { items: Vec::new() }
    }

    /// Stores a resource under a name that is not present yet.
    pub fn insert(&mut self, key: Key, value: A)
        requires
            old(self).wf(),
            !old(self).spec_contains(key@),
        ensures
            final(self).spec_entries() == old(self).spec_entries().push((key, value)),
            final(self).wf(),
    {
        self.items.push((key, value));
        proof {
            lemma_push_keeps_unique(old(self).spec_entries(), self.spec_entries(), key@);
        }
    }

    /// Stores a resource unless its name is already taken; an occupied
    /// name leaves the store unchanged. Returns whether it stored.
    pub fn try_insert(&mut self, key: Key, value: A) -> (added: bool)
        requires
            old(self).wf(),
        ensures
            added == !old(self).spec_contains(key@),
            added ==> final(self).spec_entries() == old(self).spec_entries().push((key, value)),
            !added ==> *final(self) == *old(self),
            final(self).wf(),
    {
        if self.contains_key(key.get()) {
            false
        } else {
            self.items.push((key, value));
            proof {
                lemma_push_keeps_unique(old(self).spec_entries(), self.spec_entries(), key@);
            }
            true
        }
    }

    /// Whether a resource is stored under the given name.
    pub fn contains_key(&self, name: &str) -> (r: bool)
        ensures
            r == self.spec_contains(name@),
    {
        let n = self.items.len();
        let mut i: usize = 0;
        while i < n
            invariant
                i <= n,
                n == self.spec_entries().len(),
                forall|j: int| 0 <= j < i ==> (#[trigger] self.spec_entries()[j]).0@ != name@,
            decreases n - i,
        {
            if str_eq(self.items[i].0.get(), name) {
                return true;
            }
            i += 1;
        }
        false
    }

    /// Looks a resource up by name.
    pub fn get(&self, name: &str) -> (r: Option<&A>)
        requires
            self.wf(),
        ensures
            r is Some <==> self.spec_contains(name@),
            r matches Some(a) ==> *a == self.spec_get(name@),
    {
        let n = self.items.len();
        let mut i: usize = 0;
        while i < n
            invariant
                self.wf(),
                i <= n,
                n == self.spec_entries().len(),
                forall|j: int| 0 <= j < i ==> (#[trigger] self.spec_entries()[j]).0@ != name@,
            decreases n - i,
        {
            if str_eq(self.items[i].0.get(), name) {
                return Some(&self.items[i].1);
            }
            i += 1;
        }
        None
    }

    /// The stored entries, oldest first.
    pub fn entries(&self) -> (r: &Vec<(Key, A)>)
        ensures
            r@ == self.spec_entries(),
    {
        &self.items
    }

    /// The number of stored resources.
    pub fn len(&self) -> (r: usize)
        ensures
            r == self.spec_entries().len(),
    {
        self.items.len()
    }
}

impl<A> Default for Resources<A> {
    /// Returns the empty store.
    fn default() -> (r: Self)
        ensures
            r.spec_entries() == Seq::<(Key, A)>::empty(),
            r.wf(),
    {
        Self { items: Vec::new() }
    }
}

} // verus!
