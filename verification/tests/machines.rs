use skills_manager::copy::{CopyEvent, CopyRequest, CopyTurn, CopyWalk};
use skills_manager::error::SyncError;
use skills_manager::listing::{DirEntry, EntryKind};
use skills_manager::paths::Resolved;
use skills_manager::relocate::{MoveEntry, MoveEvent, MoveRequest, MoveRun, MoveTurn};
use skills_manager::scan::{dir_contains_skill_md, find_skill_md_path, ScanTurn, SkillScan};

fn entry(name: &str, kind: EntryKind) -> DirEntry {
    DirEntry { name: name.to_string(), kind, is_dir: kind == EntryKind::Dir }
}

fn linked_dir(name: &str) -> DirEntry {
    DirEntry { name: name.to_string(), kind: EntryKind::Symlink, is_dir: true }
}

fn ask(turn: CopyTurn) -> (CopyWalk, CopyRequest) {
    match turn {
        CopyTurn::Ask { walk, request } => (walk, request),
        CopyTurn::Finished { outcome } => panic!("finished early: {outcome:?}"),
    }
}

fn opened_root(entries: Vec<DirEntry>) -> CopyTurn {
    let (walk, request) = CopyWalk::begin("/src");
    assert!(matches!(request, CopyRequest::Probe { ref rel } if rel.is_empty()));
    let (walk, request) = ask(walk.advance(CopyEvent::Probed {
        exists: true,
        is_dir: true,
        canonical: "/src".to_string(),
    }));
    assert!(matches!(request, CopyRequest::Open { ref rel } if rel.is_empty()));
    walk.advance(CopyEvent::Listed { entries })
}

#[test]
fn copy_walk_goes_through_a_directory_in_order() {
    let turn = opened_root(vec![
        entry("socket", EntryKind::Other),
        entry("a.txt", EntryKind::File),
        entry("sub", EntryKind::Dir),
        entry("link", EntryKind::Symlink),
    ]);
    let (walk, request) = ask(turn);
    assert!(matches!(request, CopyRequest::CopyFile { ref rel } if rel == &["a.txt"]));
    let (walk, request) = ask(walk.advance(CopyEvent::Copied));
    assert!(matches!(request, CopyRequest::Probe { ref rel } if rel == &["sub"]));
    let (walk, request) = ask(walk.advance(CopyEvent::Probed {
        exists: true,
        is_dir: true,
        canonical: "/src/sub".to_string(),
    }));
    assert!(matches!(request, CopyRequest::Open { ref rel } if rel == &["sub"]));
    let (walk, request) = ask(walk.advance(CopyEvent::Listed {
        entries: vec![entry("deep.txt", EntryKind::File)],
    }));
    assert!(matches!(request, CopyRequest::CopyFile { ref rel } if rel == &["sub", "deep.txt"]));
    let (walk, request) = ask(walk.advance(CopyEvent::Copied));
    assert!(matches!(request, CopyRequest::Resolve { ref rel } if rel == &["link"]));
    let (walk, request) = ask(walk.advance(CopyEvent::Resolved { kind: EntryKind::Dir }));
    assert!(matches!(request, CopyRequest::Probe { ref rel } if rel == &["link"]));
    let (walk, request) = ask(walk.advance(CopyEvent::Probed {
        exists: true,
        is_dir: true,
        canonical: "/src/sub".to_string(),
    }));
    assert!(matches!(request, CopyRequest::Open { ref rel } if rel == &["link"]));
    match walk.advance(CopyEvent::Listed { entries: vec![] }) {
        CopyTurn::Finished { outcome } => assert!(outcome.is_ok()),
        CopyTurn::Ask { request, .. } => panic!("asked for {request:?}"),
    }
}

#[test]
fn copy_walk_refuses_a_directory_it_is_inside_of() {
    let (walk, _) = ask(opened_root(vec![entry("back", EntryKind::Symlink)]));
    let (walk, _) = ask(walk.advance(CopyEvent::Resolved { kind: EntryKind::Dir }));
    match walk.advance(CopyEvent::Probed {
        exists: true,
        is_dir: true,
        canonical: "/src".to_string(),
    }) {
        CopyTurn::Finished { outcome: Err(e) } => {
            assert!(matches!(e, SyncError::CycleDetected { .. }));
            assert_eq!(e.message(), "Symlink cycle detected at /src/back");
        },
        _ => panic!("the walk went on"),
    }
}

#[test]
fn copy_walk_passes_over_links_that_lead_to_neither_file_nor_directory() {
    let (walk, request) = ask(opened_root(vec![
        entry("odd", EntryKind::Symlink),
        entry("b.txt", EntryKind::File),
    ]));
    assert!(matches!(request, CopyRequest::Resolve { .. }));
    let (_, request) = ask(walk.advance(CopyEvent::Resolved { kind: EntryKind::Other }));
    assert!(matches!(request, CopyRequest::CopyFile { ref rel } if rel == &["b.txt"]));
}

#[test]
fn copy_walk_ends_on_an_entry_of_unknown_kind_and_on_a_refusal() {
    match opened_root(vec![entry("a", EntryKind::File), entry("what", EntryKind::Unknown)]) {
        CopyTurn::Ask { walk, .. } => match walk.advance(CopyEvent::Copied) {
            CopyTurn::Finished { outcome: Err(e) } => {
                assert_eq!(e.message(), "Failed to read file type: /src/what");
            },
            _ => panic!("the walk went on"),
        },
        CopyTurn::Finished { .. } => panic!("finished early"),
    }
    let (walk, _) = ask(opened_root(vec![entry("a", EntryKind::File)]));
    match walk.advance(CopyEvent::Failed { message: "disk full".to_string() }) {
        CopyTurn::Finished { outcome: Err(e) } => {
            assert!(matches!(e, SyncError::IoFailure { .. }));
            assert_eq!(e.message(), "disk full");
        },
        _ => panic!("the walk went on"),
    }
}

fn surveyed(listing: Vec<MoveEntry>) -> MoveTurn {
    let (run, request) = MoveRun::begin("/from");
    assert!(matches!(request, MoveRequest::Probe));
    let run = match run.advance(MoveEvent::Probed { exists: true, is_dir: true }) {
        MoveTurn::Ask { run, request: MoveRequest::Survey } => run,
        _ => panic!("expected a survey"),
    };
    let turn = run.advance(MoveEvent::Surveyed {
        from: Resolved { path: "/from".to_string(), canonical: Some("/from".to_string()) },
        to: Resolved { path: "/to".to_string(), canonical: Some("/to".to_string()) },
        to_exists: false,
        to_is_dir: false,
        listing: Ok(listing),
    });
    match turn {
        MoveTurn::Ask { run, request: MoveRequest::CreateDestination } => {
            run.advance(MoveEvent::Created)
        },
        _ => panic!("expected the destination to be created"),
    }
}

fn moving(name: &str, kind: EntryKind) -> MoveEntry {
    MoveEntry { name: name.to_string(), kind, in_destination: false }
}

#[test]
fn move_succeeds_though_the_source_cannot_be_removed() {
    let run = match surveyed(vec![]) {
        MoveTurn::Ask { run, request: MoveRequest::RemoveSource } => run,
        _ => panic!("expected the source to be removed"),
    };
    match run.advance(MoveEvent::Failed { message: "busy".to_string() }) {
        MoveTurn::Finished { outcome } => assert!(outcome.is_ok()),
        MoveTurn::Ask { .. } => panic!("the run went on"),
    }
}

#[test]
fn move_copies_and_removes_where_rename_is_refused() {
    let run = match surveyed(vec![moving("dir", EntryKind::Dir), moving("link", EntryKind::Symlink)]) {
        MoveTurn::Ask { run, request: MoveRequest::Rename { name } } => {
            assert_eq!(name, "dir");
            run
        },
        _ => panic!("expected a rename"),
    };
    let run = match run.advance(MoveEvent::RenameRefused) {
        MoveTurn::Ask { run, request: MoveRequest::CopyTree { name } } => {
            assert_eq!(name, "dir");
            run
        },
        _ => panic!("expected a tree copy"),
    };
    let run = match run.advance(MoveEvent::Copied) {
        MoveTurn::Ask { run, request: MoveRequest::RemoveDir { name } } => {
            assert_eq!(name, "dir");
            run
        },
        _ => panic!("expected the directory to be removed"),
    };
    let run = match run.advance(MoveEvent::Removed) {
        MoveTurn::Ask { run, request: MoveRequest::Rename { name } } => {
            assert_eq!(name, "link");
            run
        },
        _ => panic!("expected a rename"),
    };
    let run = match run.advance(MoveEvent::RenameRefused) {
        MoveTurn::Ask { run, request: MoveRequest::CopyFile { name } } => {
            assert_eq!(name, "link");
            run
        },
        _ => panic!("expected a file copy"),
    };
    let run = match run.advance(MoveEvent::Copied) {
        MoveTurn::Ask { run, request: MoveRequest::RemoveFile { name } } => {
            assert_eq!(name, "link");
            run
        },
        _ => panic!("expected the file to be removed"),
    };
    assert!(matches!(
        run.advance(MoveEvent::Removed),
        MoveTurn::Ask { request: MoveRequest::RemoveSource, .. }
    ));
}

#[test]
fn move_ends_on_a_refusal_an_unknown_kind_or_an_event_out_of_turn() {
    match surveyed(vec![moving("what", EntryKind::Unknown)]) {
        MoveTurn::Finished { outcome: Err(e) } => {
            assert_eq!(e.message(), "Failed to read file type for /from/what");
        },
        _ => panic!("the run went on"),
    }
    match surveyed(vec![moving("a", EntryKind::File)]) {
        MoveTurn::Ask { run, .. } => match run.advance(MoveEvent::Copied) {
            MoveTurn::Finished { outcome: Err(e) } => {
                assert_eq!(e.message(), "Event out of turn in move of /from");
            },
            _ => panic!("the run went on"),
        },
        MoveTurn::Finished { .. } => panic!("finished early"),
    }
    match surveyed(vec![moving("a", EntryKind::File)]) {
        MoveTurn::Ask { run, .. } => match run.advance(MoveEvent::RenameRefused) {
            MoveTurn::Ask { run, .. } => {
                match run.advance(MoveEvent::Failed { message: "no space".to_string() }) {
                    MoveTurn::Finished { outcome: Err(e) } => assert_eq!(e.message(), "no space"),
                    _ => panic!("the run went on"),
                }
            },
            MoveTurn::Finished { .. } => panic!("finished early"),
        },
        MoveTurn::Finished { .. } => panic!("finished early"),
    }
}

#[test]
fn move_refuses_a_destination_that_is_no_directory() {
    let (run, _) = MoveRun::begin("/from");
    let run = match run.advance(MoveEvent::Probed { exists: true, is_dir: true }) {
        MoveTurn::Ask { run, request: MoveRequest::Survey } => run,
        _ => panic!("expected a survey"),
    };
    let turn = run.advance(MoveEvent::Surveyed {
        from: Resolved { path: "/from".to_string(), canonical: None },
        to: Resolved { path: "/to".to_string(), canonical: None },
        to_exists: true,
        to_is_dir: false,
        listing: Err("unreadable".to_string()),
    });
    match turn {
        MoveTurn::Finished { outcome: Err(e) } => {
            assert!(matches!(e, SyncError::NotADirectory { .. }));
            assert_eq!(e.message(), "Destination is not a directory: /to");
        },
        _ => panic!("the run went on"),
    }
}

#[test]
fn move_is_refused_at_the_survey_before_the_destination_is_asked_for() {
    let (run, _) = MoveRun::begin("/from");
    let run = match run.advance(MoveEvent::Probed { exists: true, is_dir: true }) {
        MoveTurn::Ask { run, request: MoveRequest::Survey } => run,
        _ => panic!("expected a survey"),
    };
    let turn = run.advance(MoveEvent::Surveyed {
        from: Resolved { path: "/from".to_string(), canonical: Some("/from".to_string()) },
        to: Resolved { path: "/from/in".to_string(), canonical: Some("/from/in".to_string()) },
        to_exists: false,
        to_is_dir: false,
        listing: Ok(vec![]),
    });
    assert!(matches!(
        turn,
        MoveTurn::Finished { outcome: Err(SyncError::NestedDestination { .. }) }
    ));
}

#[test]
fn move_of_a_missing_source_asks_for_the_destination_and_no_more() {
    let (run, _) = MoveRun::begin("/from");
    let run = match run.advance(MoveEvent::Probed { exists: false, is_dir: false }) {
        MoveTurn::Ask { run, request: MoveRequest::CreateDestination } => run,
        _ => panic!("expected the destination to be created"),
    };
    assert!(matches!(run.advance(MoveEvent::Created), MoveTurn::Finished { outcome: Ok(()) }));
}

#[test]
fn move_of_a_file_is_refused_in_the_words_of_a_move() {
    let (run, _) = MoveRun::begin("/from");
    match run.advance(MoveEvent::Probed { exists: true, is_dir: false }) {
        MoveTurn::Finished { outcome: Err(e) } => {
            assert_eq!(e.message(), "Source is not a directory: /from");
            assert!(e.message().to_lowercase().contains("not a dir"));
        },
        _ => panic!("the run went on"),
    }
}

#[test]
fn copy_of_a_file_is_refused_in_the_words_of_a_copy() {
    let (walk, _) = CopyWalk::begin("/src");
    match walk.advance(CopyEvent::Probed {
        exists: true,
        is_dir: false,
        canonical: String::new(),
    }) {
        CopyTurn::Finished { outcome: Err(e) } => {
            assert!(matches!(e, SyncError::NotADirectory { .. }));
            assert_eq!(e.message(), "Source is not a dir: /src");
        },
        _ => panic!("the walk went on"),
    }
    let (walk, _) = CopyWalk::begin("/src");
    match walk.advance(CopyEvent::Probed {
        exists: false,
        is_dir: false,
        canonical: String::new(),
    }) {
        CopyTurn::Finished { outcome: Err(e) } => {
            assert!(matches!(e, SyncError::NotFound { .. }));
            assert!(e.message().contains("does not exist"));
        },
        _ => panic!("the walk went on"),
    }
}

#[test]
fn marker_file_is_a_regular_file_named_skill_md() {
    assert!(dir_contains_skill_md(&vec![entry("a", EntryKind::File), entry("Skill.MD", EntryKind::File)]));
    assert!(!dir_contains_skill_md(&vec![entry("SKILL.md", EntryKind::Dir)]));
    assert!(!dir_contains_skill_md(&vec![entry("SKILL.md", EntryKind::Symlink)]));
    assert!(!dir_contains_skill_md(&vec![entry("SKILL.md", EntryKind::Unknown)]));
    assert!(!dir_contains_skill_md(&vec![entry("SKILL.mdx", EntryKind::File)]));
    assert!(!dir_contains_skill_md(&vec![]));
    assert!(dir_contains_skill_md(&vec![
        entry("what", EntryKind::Unknown),
        entry("SKILL.md", EntryKind::File),
    ]));
}

#[test]
fn marker_file_is_not_looked_for_past_an_entry_of_unknown_kind() {
    assert_eq!(
        find_skill_md_path(&vec![entry("a", EntryKind::Dir), entry("skill.md", EntryKind::File)]),
        Some("skill.md".to_string())
    );
    assert_eq!(
        find_skill_md_path(&vec![
            entry("SKILL.MD", EntryKind::File),
            entry("skill.md", EntryKind::File),
        ]),
        Some("SKILL.MD".to_string())
    );
    assert_eq!(
        find_skill_md_path(&vec![
            entry("what", EntryKind::Unknown),
            entry("SKILL.md", EntryKind::File),
        ]),
        None
    );
    assert_eq!(find_skill_md_path(&vec![entry("a", EntryKind::File)]), None);
}

#[test]
fn scan_passes_over_places_that_cannot_be_read() {
    let scan = SkillScan::begin();
    let turn = scan.advance(Some(vec![
        entry("one", EntryKind::Dir),
        entry("file", EntryKind::File),
        entry(".git", EntryKind::Dir),
        linked_dir("two"),
    ]));
    let scan = match turn {
        ScanTurn::Visit { scan, rel } => {
            assert_eq!(rel, vec!["two"]);
            scan
        },
        ScanTurn::Finished { .. } => panic!("finished early"),
    };
    let scan = match scan.advance(None) {
        ScanTurn::Visit { scan, rel } => {
            assert_eq!(rel, vec!["one"]);
            scan
        },
        ScanTurn::Finished { .. } => panic!("finished early"),
    };
    match scan.advance(Some(vec![entry("SKILL.md", EntryKind::File), entry("sub", EntryKind::Dir)])) {
        ScanTurn::Finished { roots } => assert_eq!(roots, vec![vec!["one".to_string()]]),
        ScanTurn::Visit { rel, .. } => panic!("went down into {rel:?}"),
    }
}
