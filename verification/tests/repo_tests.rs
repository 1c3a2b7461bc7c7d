use grit::branch::BranchKind;
use grit::catalog::{Filter, List, Sort};
use grit::errors::Error;
use grit::repo::{keep_named, Repository};

#[test]
fn opening_outside_any_repository_fails() {
    let r = Repository::open_at("/");
    assert!(matches!(r, Err(Error::NotARepository)));
    let missing = Repository::open_at("/no/such/directory/anywhere");
    assert!(matches!(missing, Err(Error::NotARepository)));
}

#[test]
fn undecodable_names_are_skipped_without_error() {
    let entries: Vec<(Option<String>, BranchKind)> = vec![
        (Some("main".to_string()), BranchKind::Local),
        (None, BranchKind::Remote),
        (Some(String::new()), BranchKind::Local),
        (Some("dev".to_string()), BranchKind::Remote),
    ];
    let kept = keep_named(entries);
    assert_eq!(kept.len(), 2);
    assert_eq!(kept[0].0, "main");
    assert_eq!(kept[0].1, BranchKind::Local);
    assert_eq!(kept[1].0, "dev");
    assert_eq!(kept[1].1, BranchKind::Remote);
}

fn fixture_repository() -> git2::Repository {
    let dir = "/tmp/grit_fixture_repo";
    let repo = git2::Repository::init(dir).unwrap();
    {
        let tree_id = {
            let mut index = repo.index().unwrap();
            index.write_tree().unwrap()
        };
        let tree = repo.find_tree(tree_id).unwrap();
        let old_sig = git2::Signature::new("tester", "tester@example.com", &git2::Time::new(1000, 0))
            .unwrap();
        let c1 = repo
            .commit(None, &old_sig, &old_sig, "first commit", &tree, &[])
            .unwrap();
        let first = repo.find_commit(c1).unwrap();
        repo.branch("main", &first, true).unwrap();
        let new_sig = git2::Signature::new("tester", "tester@example.com", &git2::Time::new(2000, 0))
            .unwrap();
        let c2 = repo
            .commit(None, &new_sig, &new_sig, "second commit", &tree, &[&first])
            .unwrap();
        let second = repo.find_commit(c2).unwrap();
        repo.branch("feature", &second, true).unwrap();
    }
    repo
}

#[test]
fn listing_and_loading_a_real_repository() {
    let _fixture = fixture_repository();
    let repo = Repository::open_at("/tmp/grit_fixture_repo").unwrap();

    let local = Filter::default();
    let listed = repo.list_branches(&local).unwrap();
    let names: Vec<&str> = listed.iter().map(|(n, _)| n.as_str()).collect();
    assert!(names.contains(&"main"));
    assert!(names.contains(&"feature"));
    for (name, kind) in &listed {
        assert!(!name.is_empty());
        assert_eq!(*kind, BranchKind::Local);
    }

    let history = repo
        .load_ancestry("feature", BranchKind::Local, 100)
        .unwrap();
    assert_eq!(history.len(), 2);
    assert_eq!(history[0].summary, "second commit");
    assert_eq!(history[0].timestamp.epoch(), 2000);
    assert_eq!(history[1].summary, "first commit");
    assert_eq!(history[1].timestamp.epoch(), 1000);
    assert_eq!(history[0].author.display_name(), "tester");
    assert_eq!(
        history[0].timestamp.display_string(),
        "01/01/1970 00:33:20"
    );

    let bounded = repo
        .load_ancestry("feature", BranchKind::Local, 1)
        .unwrap();
    assert_eq!(bounded.len(), 1);
    assert_eq!(bounded[0].timestamp.epoch(), 2000);

    let missing = repo.load_ancestry("no_such_branch", BranchKind::Local, 100);
    assert!(matches!(missing, Err(Error::BranchNotFound)));

    let loaded = repo.branches(&local).unwrap();
    let list = List::build(loaded, local);
    assert!(list.sort == Sort::DateDescending);
    assert_eq!(list.cursor, Some(0));
    let top = list.current().unwrap();
    assert_eq!(top.branch.name, "feature");
    assert_eq!(top.branch.commits().len(), 2);
}
