use germina::kit::asset::is_pack_source;
use germina::kit::{Asset, Key, Kind, Resources};

#[test]
fn key_accepts_word_characters() {
    for good in ["stone", "Dirt_2", "A", "0", "snake_case_name"] {
        let key = Key::from_str(good).unwrap();
        assert_eq!(key.get(), good);
    }
}

#[test]
fn key_rejects_other_strings() {
    for bad in ["", "a b", "dash-ed", "dot.ted", "slash/ed", "ünicode"] {
        assert!(Key::from_str(bad).is_err(), "accepted {bad:?}");
    }
}

#[test]
fn parse_path_accepts_tile_entries() {
    let asset = Asset::parse_path("tiles/stone.json").unwrap();
    assert_eq!(asset.name.get(), "stone");
    assert!(matches!(asset.kind, Kind::Tile));
}

#[test]
fn parse_path_rejects_other_entries() {
    for bad in [
        "tiles/stone.png",
        "items/sword.json",
        "tiles/sub/stone.json",
        "tiles/.json",
        "tiles/sto.ne.json",
        "stone.json",
        "tiles/",
        "",
    ] {
        assert!(Asset::parse_path(bad).is_none(), "accepted {bad:?}");
    }
}

#[test]
fn resources_insert_and_get() {
    let mut res: Resources<u32> = Resources::new();
    res.insert(Key::from_str("stone").unwrap(), 7);
    res.insert(Key::from_str("dirt").unwrap(), 9);
    assert_eq!(res.len(), 2);
    assert_eq!(res.get("stone"), Some(&7));
    assert_eq!(res.get("dirt"), Some(&9));
    assert_eq!(res.get("grass"), None);
    assert!(res.contains_key("stone"));
    assert!(!res.contains_key("grass"));
}

#[test]
fn resources_try_insert_skips_taken_names() {
    let mut res: Resources<u32> = Resources::default();
    assert!(res.try_insert(Key::from_str("stone").unwrap(), 1));
    assert!(!res.try_insert(Key::from_str("stone").unwrap(), 2));
    assert_eq!(res.get("stone"), Some(&1));
    assert_eq!(res.len(), 1);
}

#[test]
fn resources_entries_keep_insertion_order() {
    let mut res: Resources<&str> = Resources::new();
    res.insert(Key::from_str("b").unwrap(), "two");
    res.insert(Key::from_str("a").unwrap(), "one");
    let entries = res.entries();
    assert_eq!(entries.len(), 2);
    assert_eq!(entries[0].0.get(), "b");
    assert_eq!(entries[1].0.get(), "a");
}

#[test]
fn pack_sources_are_models_and_sprites() {
    assert!(is_pack_source("tiles/stone.toml"));
    assert!(is_pack_source("sprites/tiles/stone.png"));
    assert!(is_pack_source("sprites/a.b.png"));
    assert!(!is_pack_source("notes/readme.txt"));
    assert!(!is_pack_source("png"));
    assert!(!is_pack_source(""));
    assert!(!is_pack_source("archive.png.bak"));
}

#[test]
fn pack_sources_need_a_file_name_stem() {
    assert!(!is_pack_source(".png"));
    assert!(!is_pack_source(".toml"));
    assert!(!is_pack_source("sprites/.png"));
    assert!(!is_pack_source("tiles/.toml"));
    assert!(is_pack_source(".hidden.png"));
}
