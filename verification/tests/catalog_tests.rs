use grit::branch::{Author, Branch, BranchKind, Commit};
use grit::catalog::{BranchItem, Filter, List, Sort};
use grit::timestamp::Timestamp;

fn ts(epoch: i64) -> Timestamp {
    Timestamp::from_native(epoch, 0).unwrap()
}

fn commit(epoch: i64, summary: &str) -> Commit {
    Commit {
        summary: summary.to_string(),
        message: summary.to_string(),
        author: Author {
            name: Some("tester".to_string()),
            email: Some("tester@example.com".to_string()),
        },
        timestamp: ts(epoch),
    }
}

fn branch(name: &str, kind: BranchKind, epochs: &[i64]) -> Branch {
    let commits = epochs.iter().map(|e| commit(*e, "work")).collect();
    Branch {
        name: name.to_string(),
        kind,
        commits,
    }
}

fn names(list: &List) -> Vec<String> {
    list.items.iter().map(|it| it.branch.name.clone()).collect()
}

#[test]
fn build_uses_default_sort_and_cursor() {
    let branches = vec![
        branch("main", BranchKind::Local, &[1000]),
        branch("feature", BranchKind::Local, &[2000]),
    ];
    let list = List::build(branches, Filter::default());
    assert!(list.sort == Sort::DateDescending);
    assert_eq!(names(&list), vec!["feature".to_string(), "main".to_string()]);
    assert_eq!(list.cursor, Some(0));
    assert_eq!(list.current().unwrap().branch.name, "feature");
}

#[test]
fn build_empty_has_no_cursor() {
    let list = List::build(Vec::new(), Filter::default());
    assert_eq!(list.cursor, None);
    assert!(list.current().is_none());
}

#[test]
fn scenario_cycle_sort_then_select_last() {
    let branches = vec![
        branch("main", BranchKind::Local, &[1000]),
        branch("feature", BranchKind::Local, &[2000]),
    ];
    let mut list = List::build(branches, Filter::default());
    assert_eq!(names(&list), vec!["feature".to_string(), "main".to_string()]);
    list.cycle_sort();
    assert!(list.sort == Sort::NameAscending);
    assert_eq!(names(&list), vec!["feature".to_string(), "main".to_string()]);
    assert_eq!(list.cursor, Some(0));
    list.select_last();
    assert_eq!(list.cursor, Some(1));
    assert_eq!(list.current().unwrap().branch.name, "main");
}

#[test]
fn cycle_sort_four_times_returns_to_start() {
    let branches = vec![
        branch("b", BranchKind::Local, &[10]),
        branch("a", BranchKind::Local, &[20]),
    ];
    let mut list = List::build(branches, Filter::default());
    assert!(list.sort == Sort::DateDescending);
    list.cycle_sort();
    assert!(list.sort == Sort::NameAscending);
    assert_eq!(list.cursor, Some(0));
    list.cycle_sort();
    assert!(list.sort == Sort::NameDescending);
    assert_eq!(list.cursor, Some(0));
    list.cycle_sort();
    assert!(list.sort == Sort::DateAscending);
    assert_eq!(list.cursor, Some(0));
    list.cycle_sort();
    assert!(list.sort == Sort::DateDescending);
    assert_eq!(list.cursor, Some(0));
}

#[test]
fn name_sorts_are_reversed_for_distinct_names() {
    let branches = vec![
        branch("banana", BranchKind::Local, &[5]),
        branch("apple", BranchKind::Local, &[7]),
        branch("cherry", BranchKind::Local, &[3]),
    ];
    let mut list = List::build(branches, Filter::default());
    list.set_sort(Sort::NameAscending);
    let asc = names(&list);
    assert_eq!(
        asc,
        vec![
            "apple".to_string(),
            "banana".to_string(),
            "cherry".to_string()
        ]
    );
    list.set_sort(Sort::NameDescending);
    let desc = names(&list);
    let mut reversed = asc.clone();
    reversed.reverse();
    assert_eq!(desc, reversed);
}

#[test]
fn date_ascending_puts_empty_history_first() {
    let branches = vec![
        branch("with_history", BranchKind::Local, &[500]),
        branch("bare", BranchKind::Local, &[]),
        branch("older", BranchKind::Local, &[100]),
    ];
    let mut list = List::build(branches, Filter::default());
    list.set_sort(Sort::DateAscending);
    assert_eq!(
        names(&list),
        vec![
            "bare".to_string(),
            "older".to_string(),
            "with_history".to_string()
        ]
    );
    list.set_sort(Sort::DateDescending);
    assert_eq!(
        names(&list),
        vec![
            "with_history".to_string(),
            "older".to_string(),
            "bare".to_string()
        ]
    );
}

#[test]
fn equal_date_keys_keep_enumeration_order() {
    let branches = vec![
        branch("first", BranchKind::Local, &[1000]),
        branch("second", BranchKind::Local, &[1000]),
        branch("third", BranchKind::Local, &[1000]),
    ];
    let mut list = List::build(branches, Filter::default());
    assert_eq!(
        names(&list),
        vec![
            "first".to_string(),
            "second".to_string(),
            "third".to_string()
        ]
    );
    list.set_sort(Sort::DateAscending);
    assert_eq!(
        names(&list),
        vec![
            "first".to_string(),
            "second".to_string(),
            "third".to_string()
        ]
    );
}

#[test]
fn select_next_and_previous_clamp_at_boundaries() {
    let branches = vec![
        branch("a", BranchKind::Local, &[1]),
        branch("b", BranchKind::Local, &[2]),
        branch("c", BranchKind::Local, &[3]),
    ];
    let mut list = List::build(branches, Filter::default());
    assert_eq!(list.cursor, Some(0));
    list.select_previous();
    assert_eq!(list.cursor, Some(0));
    list.select_next();
    assert_eq!(list.cursor, Some(1));
    list.select_previous();
    assert_eq!(list.cursor, Some(0));
    list.select_next();
    list.select_next();
    assert_eq!(list.cursor, Some(2));
    list.select_next();
    assert_eq!(list.cursor, Some(2));
}

#[test]
fn select_from_no_cursor_initializes() {
    let branches = vec![
        branch("a", BranchKind::Local, &[1]),
        branch("b", BranchKind::Local, &[2]),
    ];
    let mut list = List::build(branches, Filter::default());
    list.select_none();
    assert_eq!(list.cursor, None);
    assert!(list.current().is_none());
    list.select_next();
    assert_eq!(list.cursor, Some(0));
    list.select_none();
    list.select_previous();
    assert_eq!(list.cursor, Some(1));
}

#[test]
fn filter_cycles_through_all_kinds() {
    let mut filter = Filter::default();
    assert_eq!(filter.typ(), Some(BranchKind::Local));
    filter.cycle();
    assert_eq!(filter.typ(), Some(BranchKind::Remote));
    filter.cycle();
    assert_eq!(filter.typ(), None);
    filter.cycle();
    assert_eq!(filter.typ(), Some(BranchKind::Local));
}

#[test]
fn rebuild_from_same_branches_reproduces_items() {
    let make = || {
        vec![
            branch("main", BranchKind::Local, &[1000]),
            branch("feature", BranchKind::Local, &[2000]),
        ]
    };
    let local = List::build(make(), Filter::default());
    let remote = List::build(
        vec![branch("origin/main", BranchKind::Remote, &[900])],
        Filter::new(Some(BranchKind::Remote)),
    );
    assert_eq!(names(&remote), vec!["origin/main".to_string()]);
    let local_again = List::build(make(), Filter::default());
    assert_eq!(names(&local), names(&local_again));
    assert_eq!(local.cursor, local_again.cursor);
}

#[test]
fn branch_item_wraps_branch() {
    let b = branch("main", BranchKind::Local, &[1]);
    let item = BranchItem::new(b);
    assert_eq!(item.branch.name, "main");
}

#[test]
fn branch_accessors() {
    let b = Branch::new("dev".to_string(), BranchKind::Local);
    assert!(b.local());
    assert_eq!(b.commits().len(), 0);
    let r = branch("origin/dev", BranchKind::Remote, &[4, 2]);
    assert!(!r.local());
    assert_eq!(r.commits().len(), 2);
}

#[test]
fn author_display_name_handles_absence() {
    let named = Author {
        name: Some("someone".to_string()),
        email: None,
    };
    assert_eq!(named.display_name(), "someone");
    let anonymous = Author {
        name: None,
        email: None,
    };
    assert_eq!(anonymous.display_name(), "<none>");
}
