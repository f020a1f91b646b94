use ez_sync::config::Config;
use ez_sync::error::ProfileError;
use ez_sync::profile::{create_profile_table, Profile, ProfileName};
use ez_sync::table::{Item, Table};

fn leaf(local: &str, remote: &str) -> Table {
    create_profile_table(local.to_string(), remote.to_string()).unwrap()
}

fn group(children: Vec<(&str, Table)>) -> Table {
    let mut t = Table::new();
    for (k, c) in children {
        t.insert(k.to_string(), Item::Table(c));
    }
    t
}

fn labels(ps: &[Profile]) -> Vec<String> {
    ps.iter().map(|p| p.name.label()).collect()
}

fn sample() -> Config {
    let mut doc = Table::new();
    doc.insert("a".to_string(), Item::Table(leaf("/la", "/ra")));
    doc.insert(
        "b".to_string(),
        Item::Table(group(vec![("c1", leaf("/l1", "/r1")), ("c2", leaf("/l2", "/r2"))])),
    );
    Config::new(doc)
}

#[test]
fn add_root_then_get() {
    let mut config = Config::new(Table::new());
    config.add_profile(ProfileName::Root("x".to_string()), leaf("/local", "/remote")).unwrap();
    let ps = config.get_profiles(&ProfileName::Root("x".to_string())).unwrap();
    assert_eq!(ps.len(), 1);
    assert_eq!(ps[0].name, ProfileName::Root("x".to_string()));
    assert_eq!(ps[0].local, "/local");
    assert_eq!(ps[0].remote, "/remote");
}

#[test]
fn add_child_creates_group() {
    let mut config = Config::new(Table::new());
    let name = ProfileName::Child("g".to_string(), "c".to_string());
    config.add_profile(name.clone(), leaf("/l", "/r")).unwrap();
    match config.table().get("g") {
        Some(Item::Table(g)) => {
            assert_eq!(g.len(), 1);
            assert!(g.get("c").is_some());
            assert!(!g.contains_key("local"));
        }
        other => panic!("group not made: {:?}", other),
    }
    let ps = config.get_profiles(&name).unwrap();
    assert_eq!(ps, vec![Profile::new(name, "/l".to_string(), "/r".to_string())]);
}

#[test]
fn add_child_under_leaf_is_refused() {
    let mut config = sample();
    let before = config.save().unwrap();
    let r = config.add_profile(
        ProfileName::Child("a".to_string(), "c2".to_string()),
        leaf("/l", "/r"),
    );
    assert_eq!(r, Err(ProfileError::LeafConflict("a".to_string())));
    assert_eq!(config.save().unwrap(), before);
}

#[test]
fn add_child_under_non_table_is_refused() {
    let mut doc = Table::new();
    doc.insert("s".to_string(), Item::Text("x".to_string()));
    let mut config = Config::new(doc);
    let r = config.add_profile(
        ProfileName::Child("s".to_string(), "c".to_string()),
        leaf("/l", "/r"),
    );
    assert_eq!(r, Err(ProfileError::NotATable("s".to_string())));
}

#[test]
fn add_root_replaces_group() {
    let mut config = sample();
    config.add_profile(ProfileName::Root("b".to_string()), leaf("/nl", "/nr")).unwrap();
    let ps = config.get_profiles(&ProfileName::Root("b".to_string())).unwrap();
    assert_eq!(labels(&ps), vec!["b"]);
    assert_eq!(ps[0].local, "/nl");
    let keys: Vec<String> = (0..config.table().len())
        .map(|i| config.table().entry(i).0.clone())
        .collect();
    assert_eq!(keys, vec!["a", "b"]);
}

#[test]
fn add_child_to_existing_group() {
    let mut config = sample();
    config
        .add_profile(ProfileName::Child("b".to_string(), "c3".to_string()), leaf("/l3", "/r3"))
        .unwrap();
    let ps = config.get_profiles(&ProfileName::Root("b".to_string())).unwrap();
    assert_eq!(labels(&ps), vec!["b.c1", "b.c2", "b.c3"]);
}

#[test]
fn remove_group_returns_children() {
    let mut config = sample();
    let removed = config.remove_profile(ProfileName::Root("b".to_string())).unwrap();
    assert_eq!(labels(&removed), vec!["b.c1", "b.c2"]);
    assert_eq!(removed[1].local, "/l2");
    assert_eq!(removed[1].remote, "/r2");
    let again = config.get_profiles(&ProfileName::Root("b".to_string()));
    assert_eq!(again, Err(ProfileError::NotFound("b".to_string())));
    assert!(config.table().get("a").is_some());
}

#[test]
fn remove_child() {
    let mut config = sample();
    let removed = config
        .remove_profile(ProfileName::Child("b".to_string(), "c1".to_string()))
        .unwrap();
    assert_eq!(labels(&removed), vec!["b.c1"]);
    let left = config.get_profiles(&ProfileName::Root("b".to_string())).unwrap();
    assert_eq!(labels(&left), vec!["b.c2"]);
}

#[test]
fn remove_errors_leave_store_unchanged() {
    let mut config = sample();
    let before = config.save().unwrap();
    assert_eq!(
        config.remove_profile(ProfileName::Root("zz".to_string())),
        Err(ProfileError::NotFound("zz".to_string()))
    );
    assert_eq!(
        config.remove_profile(ProfileName::Child("a".to_string(), "local".to_string())),
        Err(ProfileError::LeafConflict("a".to_string()))
    );
    assert_eq!(
        config.remove_profile(ProfileName::Child("b".to_string(), "c9".to_string())),
        Err(ProfileError::NotFound("c9".to_string()))
    );
    assert_eq!(
        config.remove_profile(ProfileName::Child("q".to_string(), "c".to_string())),
        Err(ProfileError::NotFound("q".to_string()))
    );
    assert_eq!(config.save().unwrap(), before);
}

#[test]
fn leaves_of_sample() {
    let config = sample();
    let ps = config.get_leaves_profiles().unwrap();
    assert_eq!(labels(&ps), vec!["a", "b.c1", "b.c2"]);
    assert_eq!(ps[0].local, "/la");
    assert_eq!(ps[2].remote, "/r2");
}

#[test]
fn leaves_root_first_then_children() {
    let mut doc = Table::new();
    doc.insert("g".to_string(), Item::Table(group(vec![("c", leaf("/gl", "/gr"))])));
    doc.insert("z".to_string(), Item::Table(leaf("/zl", "/zr")));
    doc.insert("n".to_string(), Item::Text("not a table".to_string()));
    let ps = Config::new(doc).get_leaves_profiles().unwrap();
    assert_eq!(labels(&ps), vec!["z", "g.c"]);
}

#[test]
fn leaves_of_empty_store() {
    let ps = Config::new(Table::new()).get_leaves_profiles().unwrap();
    assert!(ps.is_empty());
}

#[test]
fn get_errors_name_the_segment() {
    let config = sample();
    assert_eq!(
        config.get_profiles(&ProfileName::Root("nope".to_string())),
        Err(ProfileError::NotFound("nope".to_string()))
    );
    assert_eq!(
        config.get_profiles(&ProfileName::Child("b".to_string(), "cx".to_string())),
        Err(ProfileError::NotFound("cx".to_string()))
    );
    assert_eq!(
        config.get_profiles(&ProfileName::Child("a".to_string(), "local".to_string())),
        Err(ProfileError::NotATable("local".to_string()))
    );
}

#[test]
fn group_skips_children_that_are_not_profiles() {
    let mut half = Table::new();
    half.insert("local".to_string(), Item::Text("/only".to_string()));
    let mut g = group(vec![("ok", leaf("/l", "/r")), ("half", half)]);
    g.insert("note".to_string(), Item::Text("text".to_string()));
    let mut doc = Table::new();
    doc.insert("g".to_string(), Item::Table(g));
    let config = Config::new(doc);
    let ps = config.get_profiles(&ProfileName::Root("g".to_string())).unwrap();
    assert_eq!(labels(&ps), vec!["g.ok"]);
    assert_eq!(
        config.get_profiles(&ProfileName::Child("g".to_string(), "half".to_string())),
        Err(ProfileError::MissingKey("remote".to_string()))
    );
}

#[test]
fn leaf_with_bad_path_fails() {
    let mut t = Table::new();
    t.insert("remote".to_string(), Item::Text("/r".to_string()));
    t.insert("local".to_string(), Item::Table(Table::new()));
    let mut doc = Table::new();
    doc.insert("x".to_string(), Item::Table(t));
    let config = Config::new(doc);
    assert_eq!(
        config.get_profiles(&ProfileName::Root("x".to_string())),
        Err(ProfileError::MissingKey("local".to_string()))
    );
}
