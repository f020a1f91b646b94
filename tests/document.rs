use ez_sync::config::Config;
use ez_sync::error::ProfileError;
use ez_sync::profile::{create_profile_table, Profile, ProfileName};
use ez_sync::table::{Item, Table};

const DOC: &str = "top = 3\n\n[a]\nlocal = \"/la\"\nremote = \"/ra\"\nkeep = [1, 2]\n\n[b.c1]\nlocal = \"/l1\"\nremote = \"/r1\"\n\n[b.c2]\nlocal = \"/l2\"\nremote = \"/r2\"\n";

fn keys(t: &Table) -> Vec<String> {
    (0..t.len()).map(|i| t.entry(i).0.clone()).collect()
}

#[test]
fn load_reads_tables_and_strings() {
    let config = Config::load(DOC).unwrap();
    let doc = config.table();
    assert_eq!(keys(doc), vec!["top", "a", "b"]);
    assert!(matches!(doc.get("top"), Some(Item::Other(_))));
    match doc.get("a") {
        Some(Item::Table(a)) => {
            assert_eq!(a.get("local"), Some(&Item::Text("/la".to_string())));
            assert!(matches!(a.get("keep"), Some(Item::Other(_))));
        }
        other => panic!("a is {:?}", other),
    }
    match doc.get("b") {
        Some(Item::Table(b)) => assert_eq!(keys(b), vec!["c1", "c2"]),
        other => panic!("b is {:?}", other),
    }
}

#[test]
fn save_then_load_keeps_document() {
    let config = Config::load(DOC).unwrap();
    let text = config.save().unwrap();
    let again = Config::load(&text).unwrap();
    assert_eq!(again.table(), config.table());
    assert_eq!(again.save().unwrap(), text);
    assert!(text.contains("keep = ["));
    assert!(text.find("[a]").unwrap() < text.find("c1").unwrap());
}

#[test]
fn load_then_leaves() {
    let config = Config::load(DOC).unwrap();
    let ps = config.get_leaves_profiles().unwrap();
    let names: Vec<String> = ps.iter().map(|p| p.name.label()).collect();
    assert_eq!(names, vec!["a", "b.c1", "b.c2"]);
}

#[test]
fn empty_text_is_empty_store() {
    let config = Config::load("").unwrap();
    assert_eq!(config.table().len(), 0);
}

#[test]
fn bad_text_is_a_parse_error() {
    assert!(matches!(Config::load("[a\nlocal ="), Err(ProfileError::Parse(_))));
    assert!(matches!(Config::load("x = 1\nx = 2\n"), Err(ProfileError::Parse(_))));
}

#[test]
fn non_string_path_is_missing() {
    let config = Config::load("[n]\nlocal = 5\nremote = \"/r\"\n").unwrap();
    assert_eq!(
        config.get_profiles(&ProfileName::Root("n".to_string())),
        Err(ProfileError::MissingKey("local".to_string()))
    );
}

#[test]
fn saved_add_is_read_back() {
    let mut config = Config::load(DOC).unwrap();
    let t = create_profile_table("/nl".to_string(), "/nr".to_string()).unwrap();
    config.add_profile(ProfileName::Child("new".to_string(), "one".to_string()), t).unwrap();
    let text = config.save().unwrap();
    assert!(text.contains("top = 3"));
    let again = Config::load(&text).unwrap();
    let ps = again
        .get_profiles(&ProfileName::Child("new".to_string(), "one".to_string()))
        .unwrap();
    assert_eq!(
        ps,
        vec![Profile::new(
            ProfileName::Child("new".to_string(), "one".to_string()),
            "/nl".to_string(),
            "/nr".to_string()
        )]
    );
}

#[test]
fn paths_are_expanded() {
    let raw = "${HOME:-/fallback}/x";
    let t = create_profile_table(raw.to_string(), "/plain".to_string()).unwrap();
    let p = Profile::from_table(ProfileName::Root("e".to_string()), &t).unwrap();
    assert_ne!(p.local, raw);
    assert!(p.local.ends_with("/x"));
    assert!(!p.local.contains('$'));
    assert_eq!(p.remote, "/plain");
}

#[test]
fn unset_variable_fails() {
    let t = create_profile_table(
        "/a/$EZ_SYNC_SURELY_UNSET_VARIABLE/b".to_string(),
        "/r".to_string(),
    )
    .unwrap();
    assert_eq!(
        Profile::from_table(ProfileName::Root("e".to_string()), &t),
        Err(ProfileError::Expansion("EZ_SYNC_SURELY_UNSET_VARIABLE".to_string()))
    );
}

#[test]
fn profile_table_shape() {
    let t = create_profile_table("/l".to_string(), "/r".to_string()).unwrap();
    assert_eq!(keys(&t), vec!["local", "remote"]);
    assert_eq!(t.get("remote"), Some(&Item::Text("/r".to_string())));
}

#[test]
fn table_insert_and_remove() {
    let mut t = Table::new();
    assert_eq!(t.insert("k".to_string(), Item::Text("1".to_string())), None);
    t.insert("j".to_string(), Item::Text("2".to_string()));
    assert_eq!(
        t.insert("k".to_string(), Item::Text("3".to_string())),
        Some(Item::Text("1".to_string()))
    );
    assert_eq!(keys(&t), vec!["k", "j"]);
    assert_eq!(t.remove("k"), Some(Item::Text("3".to_string())));
    assert_eq!(t.remove("k"), None);
    assert_eq!(keys(&t), vec!["j"]);
    assert!(t.contains_key("j"));
}
