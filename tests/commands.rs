use ez_sync::config::Config;
use ez_sync::error::ProfileError;
use ez_sync::input::{validate_command, Command};
use ez_sync::profile::{self, create_profile_table, ProfileName};
use ez_sync::sync::{batch_succeeded, failed_count, rsync_args, status_message, task_result, SyncError};
use ez_sync::table::{Item, Table};

fn sample() -> Config {
    let mut b = Table::new();
    b.insert("c1".to_string(), Item::Table(create_profile_table("/l1".into(), "/r1".into()).unwrap()));
    b.insert("c2".to_string(), Item::Table(create_profile_table("/l2".into(), "/r2".into()).unwrap()));
    let mut doc = Table::new();
    doc.insert("a".to_string(), Item::Table(create_profile_table("/la".into(), "/ra".into()).unwrap()));
    doc.insert("b".to_string(), Item::Table(b));
    Config::new(doc)
}

fn syncs(r: Result<profile::Command, ProfileError>) -> Vec<(String, String, String)> {
    match r {
        Ok(profile::Command::Sync(v)) => v.into_iter().map(|s| (s.name.label(), s.source, s.target)).collect(),
        _ => panic!("not a sync"),
    }
}

#[test]
fn reserved_name_cannot_be_added() {
    let r = validate_command(
        sample(),
        Some(Command::Add { name: "all".into(), local: "/l".into(), remote: "/r".into() }),
    );
    assert!(matches!(r, Err(ProfileError::ReservedName(s)) if s == "all"));
    let r = validate_command(
        Config::new(Table::new()),
        Some(Command::Add { name: "all".into(), local: "/l".into(), remote: "/r".into() }),
    );
    assert!(matches!(r, Err(ProfileError::ReservedName(s)) if s == "all"));
}

#[test]
fn reserved_name_cannot_be_removed() {
    let r = validate_command(sample(), Some(Command::Remove { name: "all".into() }));
    assert!(matches!(r, Err(ProfileError::ReservedName(s)) if s == "all"));
}

#[test]
fn reserved_name_is_case_sensitive() {
    let r = validate_command(sample(), Some(Command::Remove { name: "ALL".into() }));
    assert!(matches!(r, Ok(profile::Command::Remove(_, n)) if n == "ALL"));
}

#[test]
fn add_is_passed_on() {
    let r = validate_command(
        sample(),
        Some(Command::Add { name: "x.y".into(), local: "/l".into(), remote: "/r".into() }),
    );
    match r {
        Ok(profile::Command::Add(_, n, t)) => {
            assert_eq!(n, "x.y");
            assert_eq!(t, create_profile_table("/l".into(), "/r".into()).unwrap());
        }
        _ => panic!("not an add"),
    }
}

#[test]
fn missing_command() {
    assert!(matches!(validate_command(sample(), None), Err(ProfileError::MissingCommand)));
}

#[test]
fn push_all() {
    let v = syncs(validate_command(sample(), Some(Command::Push { name: "all".into() })));
    assert_eq!(
        v,
        vec![
            ("a".into(), "/la".into(), "/ra".into()),
            ("b.c1".into(), "/l1".into(), "/r1".into()),
            ("b.c2".into(), "/l2".into(), "/r2".into()),
        ]
    );
}

#[test]
fn pull_group() {
    let v = syncs(validate_command(sample(), Some(Command::Pull { name: "b".into() })));
    assert_eq!(
        v,
        vec![("b.c1".into(), "/r1".into(), "/l1".into()), ("b.c2".into(), "/r2".into(), "/l2".into())]
    );
}

#[test]
fn push_child() {
    let v = syncs(validate_command(sample(), Some(Command::Push { name: "b.c2".into() })));
    assert_eq!(v, vec![("b.c2".into(), "/l2".into(), "/r2".into())]);
}

#[test]
fn push_bad_names() {
    let r = validate_command(sample(), Some(Command::Push { name: "a.b.c".into() }));
    assert!(matches!(r, Err(ProfileError::InvalidName(s)) if s == "a.b.c"));
    let r = validate_command(sample(), Some(Command::Pull { name: "zz".into() }));
    assert!(matches!(r, Err(ProfileError::NotFound(s)) if s == "zz"));
}

#[test]
fn list_gives_leaves() {
    match validate_command(sample(), Some(Command::List)) {
        Ok(profile::Command::List(v)) => {
            let names: Vec<String> = v.iter().map(|p| p.name.label()).collect();
            assert_eq!(names, vec!["a", "b.c1", "b.c2"]);
        }
        _ => panic!("not a list"),
    }
}

#[test]
fn rsync_arguments() {
    let s = profile::ProfileSync {
        name: ProfileName::Root("p".into()),
        source: "/src/".into(),
        target: "host:/dst".into(),
    };
    assert_eq!(rsync_args(&s), vec!["-a", "--delete", "/src/", "host:/dst"]);
}

#[test]
fn task_outcomes() {
    assert_eq!(task_result(None, true, Some(0)), Ok(()));
    assert_eq!(task_result(None, false, Some(23)), Err(SyncError::Exit(Some(23))));
    assert_eq!(task_result(None, false, None), Err(SyncError::Exit(None)));
    assert_eq!(
        task_result(Some("no rsync".into()), false, None),
        Err(SyncError::Spawn("no rsync".into()))
    );
    assert_eq!(status_message(&Ok(())), "done");
    assert_eq!(status_message(&Err(SyncError::Exit(Some(1)))), "failed");
}

#[test]
fn batch_with_one_failure() {
    let n = 5;
    let k = 2;
    let results: Vec<Result<(), SyncError>> = (0..n)
        .map(|i| if i == k { task_result(None, false, Some(23)) } else { task_result(None, true, Some(0)) })
        .collect();
    assert_eq!(results.len(), n);
    assert_eq!(failed_count(&results), 1);
    assert!(!batch_succeeded(&results));
    assert!(batch_succeeded(&vec![Ok(()), Ok(())]));
    assert!(batch_succeeded(&vec![]));
    assert_eq!(failed_count(&vec![]), 0);
}
