use syncignore::rules::RuleFileError;
use syncignore::state::{execute, Action, ActualState, Effect, MarkerOp, StoreMode};
use syncignore::sweep::{apply_recursively, Sweep};
use syncignore::walk::{
    all_absolute, is_absolute_path, Entry, Observation, Refusal, Stats, Traversal, VisitError,
};

fn lines(text: &[&str]) -> Vec<String> {
    text.iter().map(|l| l.to_string()).collect()
}

fn file(path: &str, actual: ActualState, size: u64) -> Observation {
    Observation { entry: Entry { path: path.to_string(), is_dir: false }, actual, size: Some(size) }
}

fn unread(path: &str, is_dir: bool, actual: ActualState) -> Observation {
    Observation { entry: Entry { path: path.to_string(), is_dir }, actual, size: None }
}

fn dir(path: &str, actual: ActualState) -> Observation {
    Observation { entry: Entry { path: path.to_string(), is_dir: true }, actual, size: Some(4096) }
}

fn entry(path: &str, is_dir: bool) -> Entry {
    Entry { path: path.to_string(), is_dir }
}

#[test]
fn a_new_walk_starts_at_the_root() {
    let walk = Traversal::begin("/r".to_string());
    assert_eq!(walk.front(), Some(&"/r".to_string()));
    assert_eq!(walk.stats(), Stats { files: 0, directories: 0, size: 0 });
}

#[test]
fn an_excluded_directory_is_marked_and_not_entered() {
    let mut walk = Traversal::begin("/r".to_string());
    let answer = walk
        .visit(Some(&lines(&["secrets/"])), &vec![dir("/r/secrets", ActualState::Unmarked)])
        .unwrap();
    assert_eq!(answer, vec![Action::Apply(MarkerOp::Mark)]);
    assert_eq!(walk.front(), None);
    assert_eq!(walk.stats(), Stats { files: 0, directories: 0, size: 0 });
}

#[test]
fn included_children_are_counted_and_directories_queued_in_order() {
    let mut walk = Traversal::begin("/r".to_string());
    let children = vec![
        file("/r/a.txt", ActualState::Unmarked, 10),
        dir("/r/one", ActualState::Unmarked),
        file("/r/b.tmp", ActualState::Unmarked, 1000),
        dir("/r/two", ActualState::Unmarked),
        file("/r/c.txt", ActualState::Unmarked, 32),
        dir("/r/build", ActualState::Marked),
    ];
    let answer = walk.visit(Some(&lines(&["*.tmp", "build/"])), &children).unwrap();
    assert_eq!(
        answer,
        vec![
            Action::NoOp,
            Action::NoOp,
            Action::Apply(MarkerOp::Mark),
            Action::NoOp,
            Action::NoOp,
            Action::NoOp,
        ]
    );
    assert_eq!(walk.stats(), Stats { files: 2, directories: 2, size: 42 });
    assert_eq!(walk.front(), Some(&"/r/one".to_string()));
    let none: Vec<Observation> = vec![];
    assert_eq!(walk.visit(None, &none).unwrap(), vec![]);
    assert_eq!(walk.front(), Some(&"/r/two".to_string()));
    assert_eq!(walk.visit(None, &none).unwrap(), vec![]);
    assert_eq!(walk.front(), None);
    assert_eq!(walk.stats(), Stats { files: 2, directories: 2, size: 42 });
}

#[test]
fn the_walk_is_breadth_first() {
    let mut walk = Traversal::begin("/r".to_string());
    let none: Vec<Observation> = vec![];
    walk.visit(None, &vec![dir("/r/a", ActualState::Unmarked), dir("/r/b", ActualState::Unmarked)])
        .unwrap();
    assert_eq!(walk.front(), Some(&"/r/a".to_string()));
    walk.visit(None, &vec![dir("/r/a/x", ActualState::Unmarked)]).unwrap();
    assert_eq!(walk.front(), Some(&"/r/b".to_string()));
    walk.visit(None, &vec![dir("/r/b/y", ActualState::Unmarked)]).unwrap();
    assert_eq!(walk.front(), Some(&"/r/a/x".to_string()));
    walk.visit(None, &none).unwrap();
    assert_eq!(walk.front(), Some(&"/r/b/y".to_string()));
    walk.visit(None, &none).unwrap();
    assert_eq!(walk.front(), None);
    assert_eq!(walk.stats(), Stats { files: 0, directories: 4, size: 0 });
}

#[test]
fn rules_are_inherited_down_the_walk() {
    let mut walk = Traversal::begin("/r".to_string());
    walk.visit(Some(&lines(&["*.tmp"])), &vec![dir("/r/child", ActualState::Unmarked)]).unwrap();
    let answer = walk
        .visit(
            None,
            &vec![
                file("/r/child/a.tmp", ActualState::Unmarked, 5),
                file("/r/child/a.txt", ActualState::Unmarked, 7),
            ],
        )
        .unwrap();
    assert_eq!(answer, vec![Action::Apply(MarkerOp::Mark), Action::NoOp]);
    assert_eq!(walk.stats(), Stats { files: 1, directories: 1, size: 7 });
}

#[test]
fn a_deeper_rule_file_overrides_within_its_branch_only() {
    let mut walk = Traversal::begin("/r".to_string());
    walk.visit(
        Some(&lines(&["*.tmp"])),
        &vec![dir("/r/keep", ActualState::Unmarked), dir("/r/plain", ActualState::Unmarked)],
    )
    .unwrap();
    let kept = walk
        .visit(Some(&lines(&["!*.tmp"])), &vec![file("/r/keep/a.tmp", ActualState::Unmarked, 1)])
        .unwrap();
    assert_eq!(kept, vec![Action::NoOp]);
    let plain = walk.visit(None, &vec![file("/r/plain/a.tmp", ActualState::Unmarked, 2)]).unwrap();
    assert_eq!(plain, vec![Action::Apply(MarkerOp::Mark)]);
    assert_eq!(walk.stats(), Stats { files: 1, directories: 2, size: 1 });
}

#[test]
fn a_marked_entry_without_a_rule_is_reported_and_kept() {
    let mut walk = Traversal::begin("/r".to_string());
    let answer = walk
        .visit(
            Some(&lines(&["*.tmp"])),
            &vec![
                file("/r/by_hand.txt", ActualState::Marked, 3),
                file("/r/a.tmp", ActualState::Marked, 100),
            ],
        )
        .unwrap();
    assert_eq!(answer, vec![Action::ReportAnomaly, Action::NoOp]);
    assert_eq!(walk.stats(), Stats { files: 1, directories: 0, size: 3 });
}

#[test]
fn a_second_walk_corrects_nothing() {
    let rules = lines(&["*.tmp", "secrets/"]);
    let listing = |marked: bool| {
        let state = if marked { ActualState::Marked } else { ActualState::Unmarked };
        vec![
            file("/r/a.tmp", state, 1),
            dir("/r/secrets", state),
            file("/r/a.txt", ActualState::Unmarked, 2),
            dir("/r/sub", ActualState::Unmarked),
        ]
    };
    let mut first = Traversal::begin("/r".to_string());
    let one = first.visit(Some(&rules), &listing(false)).unwrap();
    assert_eq!(
        one,
        vec![Action::Apply(MarkerOp::Mark), Action::Apply(MarkerOp::Mark), Action::NoOp, Action::NoOp]
    );
    let mut second = Traversal::begin("/r".to_string());
    let two = second.visit(Some(&rules), &listing(true)).unwrap();
    assert_eq!(two, vec![Action::NoOp, Action::NoOp, Action::NoOp, Action::NoOp]);
    assert_eq!(first.stats(), second.stats());
    assert_eq!(first.front(), second.front());
}

#[test]
fn a_malformed_rule_file_stops_the_visit_and_changes_nothing() {
    let mut walk = Traversal::begin("/r".to_string());
    let r = walk.visit(Some(&lines(&["fine", "{"])), &vec![file("/r/a", ActualState::Unmarked, 9)]);
    assert!(matches!(r, Err(VisitError::RuleFile(RuleFileError::BadLine { index: 1, .. }))));
    assert_eq!(walk.front(), Some(&"/r".to_string()));
    assert_eq!(walk.stats(), Stats { files: 0, directories: 0, size: 0 });
}

#[test]
fn an_explicit_command_on_one_path_lists_nothing() {
    let (sweep, action) = Sweep::begin("/r/x".to_string(), MarkerOp::Mark, false);
    assert_eq!(action, Action::Apply(MarkerOp::Mark));
    assert_eq!(sweep.front(), None);
}

#[test]
fn a_recursive_command_reaches_every_descendant() {
    let (mut sweep, action) = Sweep::begin("/r".to_string(), MarkerOp::Mark, true);
    assert_eq!(action, Action::Apply(MarkerOp::Mark));
    assert_eq!(sweep.front(), Some(&"/r".to_string()));
    let top = vec![entry("/r/.dropboxignore", false), entry("/r/a", true), entry("/r/f", false), entry("/r/b", true)];
    assert_eq!(apply_recursively(&mut sweep, &top), vec![Action::Apply(MarkerOp::Mark); 4]);
    assert_eq!(sweep.front(), Some(&"/r/a".to_string()));
    assert_eq!(
        apply_recursively(&mut sweep, &vec![entry("/r/a/deep", true)]),
        vec![Action::Apply(MarkerOp::Mark)]
    );
    assert_eq!(sweep.front(), Some(&"/r/b".to_string()));
    assert_eq!(apply_recursively(&mut sweep, &vec![]), vec![]);
    assert_eq!(sweep.front(), Some(&"/r/a/deep".to_string()));
    assert_eq!(apply_recursively(&mut sweep, &vec![]), vec![]);
    assert_eq!(sweep.front(), None);
}

#[test]
fn a_recursive_unmark_clears_every_descendant() {
    let (mut sweep, action) = Sweep::begin("/r".to_string(), MarkerOp::Unmark, true);
    assert_eq!(action, Action::Apply(MarkerOp::Unmark));
    let top = vec![entry("/r/a", true), entry("/r/f", false)];
    assert_eq!(apply_recursively(&mut sweep, &top), vec![Action::Apply(MarkerOp::Unmark); 2]);
    assert_eq!(sweep.front(), Some(&"/r/a".to_string()));
}

#[test]
fn counters_have_room_for_an_ordinary_listing() {
    let walk = Traversal::begin("/r".to_string());
    assert!(walk.has_room(&vec![file("/r/a", ActualState::Unmarked, 10), dir("/r/d", ActualState::Unmarked)]));
    let none: Vec<Observation> = vec![];
    assert!(walk.has_room(&none));
}

#[test]
fn counters_have_no_room_for_more_bytes_than_fit() {
    let mut walk = Traversal::begin("/r".to_string());
    let big = vec![file("/r/a", ActualState::Unmarked, u64::MAX - 1), file("/r/b", ActualState::Unmarked, 2)];
    assert!(!walk.has_room(&big));
    let fits = vec![file("/r/a", ActualState::Unmarked, u64::MAX - 1), file("/r/b", ActualState::Unmarked, 1)];
    assert!(walk.has_room(&fits));
    walk.visit(None, &fits).unwrap();
    assert_eq!(walk.stats(), Stats { files: 2, directories: 0, size: u64::MAX });
}

#[test]
fn absolute_paths_begin_at_the_root() {
    assert!(is_absolute_path("/"));
    assert!(is_absolute_path("/r/a.txt"));
    assert!(!is_absolute_path(""));
    assert!(!is_absolute_path("r/a.txt"));
    assert!(!is_absolute_path("./r"));
    assert!(!is_absolute_path("\u{e9}/r"));
}

#[test]
fn nothing_below_an_excluded_directory_is_reached_by_a_deeper_negation() {
    let mut walk = Traversal::begin("/r".to_string());
    let top = walk
        .visit(
            Some(&lines(&["build/"])),
            &vec![dir("/r/build", ActualState::Unmarked), dir("/r/proj", ActualState::Unmarked)],
        )
        .unwrap();
    assert_eq!(top, vec![Action::Apply(MarkerOp::Mark), Action::NoOp]);
    assert_eq!(walk.front(), Some(&"/r/proj".to_string()));
    let inner = walk
        .visit(
            Some(&lines(&["!build/keep.txt"])),
            &vec![
                dir("/r/proj/build", ActualState::Unmarked),
                file("/r/proj/notes.txt", ActualState::Unmarked, 8),
            ],
        )
        .unwrap();
    assert_eq!(inner, vec![Action::Apply(MarkerOp::Mark), Action::NoOp]);
    assert_eq!(walk.front(), None);
    assert_eq!(walk.stats(), Stats { files: 1, directories: 1, size: 8 });
}

#[test]
fn a_dry_run_leaves_the_next_check_as_it_would_have_been() {
    let rules = lines(&["*.tmp"]);
    let listing = vec![
        file("/r/a.tmp", ActualState::Unmarked, 1),
        file("/r/b.txt", ActualState::Marked, 2),
        dir("/r/sub", ActualState::Unmarked),
    ];
    let mut dry = Traversal::begin("/r".to_string());
    let announced = dry.visit(Some(&rules), &listing).unwrap();
    for action in &announced {
        assert!(!matches!(execute(StoreMode::Simulated, *action), Effect::Persist(_)));
    }
    let mut live = Traversal::begin("/r".to_string());
    let done = live.visit(Some(&rules), &listing).unwrap();
    assert_eq!(done, announced);
    assert_eq!(done, vec![Action::Apply(MarkerOp::Mark), Action::ReportAnomaly, Action::NoOp]);
    assert_eq!(live.stats(), dry.stats());
    assert_eq!(live.front(), dry.front());
}

#[test]
fn a_listing_is_absolute_when_every_path_is() {
    let none: Vec<Observation> = vec![];
    assert!(all_absolute(&none));
    assert!(all_absolute(&vec![file("/r/a", ActualState::Unmarked, 1), dir("/r/d", ActualState::Marked)]));
    assert!(!all_absolute(&vec![file("/r/a", ActualState::Unmarked, 1), file("b", ActualState::Unmarked, 1)]));
    assert!(!all_absolute(&vec![dir("", ActualState::Unmarked)]));
}

#[test]
fn a_checked_visit_visits_like_a_visit() {
    let mut walk = Traversal::begin("/r".to_string());
    let children =
        vec![file("/r/a.tmp", ActualState::Unmarked, 5), dir("/r/sub", ActualState::Unmarked)];
    let answer = walk.checked_visit(Some(&lines(&["*.tmp"])), &children);
    assert_eq!(answer, Ok(Ok(vec![Action::Apply(MarkerOp::Mark), Action::NoOp])));
    assert_eq!(walk.front(), Some(&"/r/sub".to_string()));
    assert_eq!(walk.stats(), Stats { files: 0, directories: 1, size: 0 });
}

#[test]
fn a_checked_visit_hands_on_a_malformed_rule_file() {
    let mut walk = Traversal::begin("/r".to_string());
    let none: Vec<Observation> = vec![];
    let answer = walk.checked_visit(Some(&lines(&["[z-a]"])), &none);
    assert!(matches!(answer, Ok(Err(VisitError::RuleFile(RuleFileError::BadLine { index: 0, .. })))));
    assert_eq!(walk.front(), Some(&"/r".to_string()));
}

#[test]
fn a_checked_visit_refuses_when_the_walk_is_over() {
    let mut walk = Traversal::begin("/r".to_string());
    let none: Vec<Observation> = vec![];
    assert_eq!(walk.checked_visit(None, &none), Ok(Ok(vec![])));
    assert_eq!(walk.checked_visit(None, &none), Err(Refusal::NothingPending));
    assert_eq!(
        walk.checked_visit(None, &vec![file("relative", ActualState::Unmarked, 1)]),
        Err(Refusal::NothingPending)
    );
}

#[test]
fn a_checked_visit_refuses_a_relative_path() {
    let mut walk = Traversal::begin("/r".to_string());
    let children = vec![
        file("/r/a", ActualState::Unmarked, u64::MAX),
        file("r/b", ActualState::Unmarked, u64::MAX),
    ];
    assert_eq!(walk.checked_visit(None, &children), Err(Refusal::RelativePath));
    assert_eq!(walk.front(), Some(&"/r".to_string()));
    assert_eq!(walk.stats(), Stats { files: 0, directories: 0, size: 0 });
}

#[test]
fn a_checked_visit_refuses_what_the_counters_cannot_hold() {
    let mut walk = Traversal::begin("/r".to_string());
    let children =
        vec![file("/r/a", ActualState::Unmarked, u64::MAX), file("/r/b", ActualState::Unmarked, 1)];
    assert_eq!(walk.checked_visit(None, &children), Err(Refusal::NoRoom));
    assert_eq!(walk.front(), Some(&"/r".to_string()));
    assert_eq!(walk.stats(), Stats { files: 0, directories: 0, size: 0 });
}

#[test]
fn the_size_of_an_excluded_entry_is_not_asked_for() {
    let mut walk = Traversal::begin("/r".to_string());
    let children = vec![
        unread("/r/a.tmp", false, ActualState::Unmarked),
        unread("/r/b.tmp", false, ActualState::Marked),
        file("/r/c.txt", ActualState::Unmarked, 3),
    ];
    let answer = walk.visit(Some(&lines(&["*.tmp"])), &children).unwrap();
    assert_eq!(answer, vec![Action::Apply(MarkerOp::Mark), Action::NoOp, Action::NoOp]);
    assert_eq!(walk.stats(), Stats { files: 1, directories: 0, size: 3 });
}

#[test]
fn the_size_of_a_directory_is_not_asked_for() {
    let mut walk = Traversal::begin("/r".to_string());
    let children = vec![
        unread("/r/sub", true, ActualState::Unmarked),
        unread("/r/build", true, ActualState::Unmarked),
    ];
    let answer = walk.visit(Some(&lines(&["build/"])), &children).unwrap();
    assert_eq!(answer, vec![Action::NoOp, Action::Apply(MarkerOp::Mark)]);
    assert_eq!(walk.stats(), Stats { files: 0, directories: 1, size: 0 });
    assert_eq!(walk.front(), Some(&"/r/sub".to_string()));
}

#[test]
fn a_counted_file_without_a_size_stops_the_visit_and_changes_nothing() {
    let mut walk = Traversal::begin("/r".to_string());
    let children = vec![
        file("/r/a.txt", ActualState::Unmarked, 3),
        unread("/r/skipped.tmp", false, ActualState::Unmarked),
        dir("/r/sub", ActualState::Unmarked),
        unread("/r/b.txt", false, ActualState::Marked),
        unread("/r/c.txt", false, ActualState::Unmarked),
    ];
    let r = walk.visit(Some(&lines(&["*.tmp"])), &children);
    assert_eq!(r, Err(VisitError::SizeUnread { index: 3 }));
    assert_eq!(walk.front(), Some(&"/r".to_string()));
    assert_eq!(walk.stats(), Stats { files: 0, directories: 0, size: 0 });
    let again = walk.checked_visit(Some(&lines(&["*.tmp"])), &children);
    assert_eq!(again, Ok(Err(VisitError::SizeUnread { index: 3 })));
    let all = walk.visit(Some(&lines(&["*.tmp", "*.txt"])), &children).unwrap();
    assert_eq!(all.len(), 5);
    assert_eq!(walk.front(), Some(&"/r/sub".to_string()));
    assert_eq!(walk.stats(), Stats { files: 0, directories: 1, size: 0 });
}

#[test]
fn a_malformed_rule_file_is_reported_before_an_unread_size() {
    let mut walk = Traversal::begin("/r".to_string());
    let children = vec![unread("/r/a.txt", false, ActualState::Unmarked)];
    let r = walk.visit(Some(&lines(&["[z-a]"])), &children);
    assert!(matches!(r, Err(VisitError::RuleFile(RuleFileError::BadLine { index: 0, .. }))));
}
