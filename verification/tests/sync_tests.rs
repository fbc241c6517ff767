use canvas_cli::engine::{
    run_pass, plan_fetch, CourseInput, EntityKind, FetchError, FetchPlan, ModuleInput, SyncError,
};
use canvas_cli::models::{Assignment, Course, Discussion, Module, ModuleItem};
use canvas_cli::store::{CourseRow, Database, StorageError};

const NOW: i64 = 1_700_000_000;

fn course(id: u64, name: &str, code: &str) -> Course {
    Course {
        id,
        name: Some(name.to_string()),
        course_code: Some(code.to_string()),
        enrollment_term_id: Some(1),
        total_students: Some(10),
        start_at: Some(NOW),
        end_at: None,
    }
}

fn assignment(id: u64, name: &str) -> Assignment {
    Assignment {
        id,
        name: name.to_string(),
        description: None,
        due_at: None,
        points_possible: Some((25.5f64).to_bits()),
        html_url: "http://test.com/a".to_string(),
        submission_types: vec![],
        allowed_extensions: None,
    }
}

fn discussion(id: u64, title: &str) -> Discussion {
    Discussion {
        id,
        title: title.to_string(),
        message: "m".to_string(),
        html_url: "http://test.com/d".to_string(),
        posted_at: Some(NOW),
        allow_rating: false,
        user_can_see_posts: true,
        discussion_type: "threaded".to_string(),
        discussion_subentry_count: 0,
        published: true,
        locked: false,
        pinned: false,
    }
}

fn module(id: u64, name: &str) -> Module {
    Module {
        id,
        name: name.to_string(),
        position: 1,
        unlock_at: None,
        require_sequential_progress: false,
        publish_final_grade: false,
        prerequisite_module_ids: None,
        state: "active".to_string(),
        completed_at: None,
        items_count: 1,
        items_url: "http://test.com/mi".to_string(),
    }
}

fn item(id: u64, module_id: u64, title: &str) -> ModuleItem {
    ModuleItem {
        id,
        module_id,
        position: 1,
        title: title.to_string(),
        indent: 0,
        item_type: "Page".to_string(),
        html_url: "http://test.com/i".to_string(),
        content_id: None,
        external_url: None,
        completion_requirement: None,
    }
}

fn plain_input(c: Course) -> CourseInput {
    CourseInput {
        course: c,
        assignments: Ok(vec![]),
        discussions: Ok(vec![]),
        modules: Ok(vec![]),
    }
}

// The bootstrap path: an untouched store has no stale courses, so the plan
// falls back to the full course list; one pass then lands the course row and
// a sync record stamped inside the pass's window.
#[test]
fn bootstrap_pass_populates_empty_store() {
    let mut db = Database::new();

    match plan_fetch(&db, 6, NOW) {
        FetchPlan::All => (),
        FetchPlan::Stale(_) => panic!("an empty store must fetch the full course list"),
    }

    let inputs = vec![plain_input(course(1234, "Test Course", "TEST101"))];
    let report = run_pass(&mut db, &inputs, NOW);

    let row = db.course_rows().iter().find(|r| r.id == 1234).unwrap();
    assert_eq!(row.name.as_deref(), Some("Test Course"));
    assert_eq!(row.course_code.as_deref(), Some("TEST101"));
    assert!(report.failures.is_empty());
    assert!(!report.status.is_empty());
    // The recorded timestamps parse back to exactly the pass's instant.
    for (_, t) in &report.status {
        assert_eq!(*t, NOW);
    }
}

// After a pass, the freshly written courses are stale only once the clock
// moves past the threshold; the plan switches accordingly.
#[test]
fn plan_switches_to_stale_courses() {
    let mut db = Database::new();
    let inputs = vec![
        plain_input(course(1, "A", "A1")),
        plain_input(course(2, "B", "B1")),
    ];
    run_pass(&mut db, &inputs, NOW);

    match plan_fetch(&db, 6, NOW) {
        FetchPlan::All => (),
        FetchPlan::Stale(_) => panic!("fresh courses must not be stale"),
    }

    let later = NOW + 7 * 3600;
    match plan_fetch(&db, 6, later) {
        FetchPlan::Stale(ids) => {
            assert!(ids.contains(&1));
            assert!(ids.contains(&2));
            assert_eq!(ids.len(), 2);
        }
        FetchPlan::All => panic!("seven-hour-old courses must be stale at six hours"),
    }
}

// A failed assignment fetch for one course costs exactly that batch: every
// course row, every discussion and module of every course is still written,
// and the status listing still comes back.
#[test]
fn assignment_fetch_failure_is_isolated() {
    let mut db = Database::new();
    let inputs = vec![
        CourseInput {
            course: course(1, "A", "A1"),
            assignments: Err(FetchError::Transport),
            discussions: Ok(vec![discussion(11, "D1")]),
            modules: Ok(vec![ModuleInput {
                module: module(21, "M1"),
                items: Ok(vec![item(31, 21, "I1")]),
            }]),
        },
        CourseInput {
            course: course(2, "B", "B1"),
            assignments: Ok(vec![assignment(12, "A2")]),
            discussions: Ok(vec![discussion(13, "D2")]),
            modules: Ok(vec![ModuleInput {
                module: module(22, "M2"),
                items: Ok(vec![item(32, 22, "I2")]),
            }]),
        },
    ];
    let report = run_pass(&mut db, &inputs, NOW);

    assert!(db.course_rows().iter().any(|r| r.id == 1));
    assert!(db.course_rows().iter().any(|r| r.id == 2));
    assert!(db.discussion_rows().iter().any(|r| r.id == 11));
    assert!(db.discussion_rows().iter().any(|r| r.id == 13));
    assert!(db.module_rows().iter().any(|r| r.id == 21));
    assert!(db.module_rows().iter().any(|r| r.id == 22));
    assert!(db.module_item_rows().iter().any(|r| r.id == 31));
    assert!(db.module_item_rows().iter().any(|r| r.id == 32));
    // Course 1 contributed no assignment rows; course 2's landed.
    assert!(db.assignment_rows().iter().all(|r| r.course_id != 1));
    assert!(db.assignment_rows().iter().any(|r| r.id == 12));

    assert_eq!(report.failures.len(), 1);
    assert_eq!(report.failures[0].kind, EntityKind::Assignment);
    assert_eq!(report.failures[0].id, 1);
    assert_eq!(report.failures[0].error, SyncError::Fetch(FetchError::Transport));
    assert!(!report.status.is_empty());
}

// When the course write itself is refused, none of that course's children
// are written: here the store refuses every write of the pass, and the
// tables stay empty.
#[test]
fn refused_course_write_excludes_children() {
    let mut db = Database::new();
    let bad_instant: i64 = -5;
    let inputs = vec![CourseInput {
        course: course(1, "A", "A1"),
        assignments: Ok(vec![assignment(12, "A2")]),
        discussions: Ok(vec![discussion(13, "D2")]),
        modules: Ok(vec![ModuleInput {
            module: module(22, "M2"),
            items: Ok(vec![item(32, 22, "I2")]),
        }]),
    }];
    let report = run_pass(&mut db, &inputs, bad_instant);

    assert!(db.course_rows().is_empty());
    assert!(db.assignment_rows().is_empty());
    assert!(db.discussion_rows().is_empty());
    assert!(db.module_rows().is_empty());
    assert!(db.module_item_rows().is_empty());
    assert_eq!(report.failures.len(), 1);
    assert_eq!(report.failures[0].kind, EntityKind::Course);
    assert_eq!(
        report.failures[0].error,
        SyncError::Storage(StorageError::TimestampOutOfRange)
    );
}

// A child write with no parent in the store is refused outright.
#[test]
fn orphan_child_writes_are_refused() {
    let mut db = Database::new();
    assert_eq!(
        db.sync_assignment(99, &assignment(1, "A"), NOW),
        Err(StorageError::MissingParent)
    );
    assert_eq!(
        db.sync_module_item(99, &item(1, 99, "I"), NOW),
        Err(StorageError::MissingParent)
    );
    assert!(db.assignment_rows().is_empty());
    assert!(db.module_item_rows().is_empty());
}

// A write whose instant the store cannot format is refused.
#[test]
fn out_of_range_instant_is_refused() {
    let mut db = Database::new();
    let too_late: i64 = 253_402_300_800;
    assert_eq!(
        db.sync_course(&course(1, "A", "A1"), too_late),
        Err(StorageError::TimestampOutOfRange)
    );
    assert!(db.course_rows().is_empty());
}

// Writing the same identifier twice leaves exactly one row, with the second
// write's values and the later stamp.
#[test]
fn second_write_replaces_first() {
    let mut db = Database::new();
    db.sync_course(&course(7, "Old name", "OLD"), NOW).unwrap();
    let first_stamp = db.course_rows()[0].last_sync.clone();
    db.sync_course(&course(7, "New name", "NEW"), NOW + 60).unwrap();

    let rows: Vec<&CourseRow> = db.course_rows().iter().filter(|r| r.id == 7).collect();
    assert_eq!(rows.len(), 1);
    assert_eq!(db.course_rows().len(), 1);
    assert_eq!(rows[0].name.as_deref(), Some("New name"));
    assert_eq!(rows[0].course_code.as_deref(), Some("NEW"));
    assert_ne!(rows[0].last_sync, first_stamp);
}

// Two passes in immediate succession over unchanged remote data leave the
// same row counts and values; only the stamps move.
#[test]
fn second_pass_changes_only_stamps() {
    let inputs = || {
        vec![
            CourseInput {
                course: course(1, "A", "A1"),
                assignments: Ok(vec![assignment(12, "A2"), assignment(14, "A3")]),
                discussions: Ok(vec![discussion(13, "D2")]),
                modules: Ok(vec![ModuleInput {
                    module: module(22, "M2"),
                    items: Ok(vec![item(32, 22, "I2")]),
                }]),
            },
            plain_input(course(2, "B", "B1")),
        ]
    };
    let mut db = Database::new();
    run_pass(&mut db, &inputs(), NOW);
    let courses1: Vec<CourseRow> = db.course_rows().clone();
    let asg1 = db.assignment_rows().clone();
    let disc1 = db.discussion_rows().clone();
    let mods1 = db.module_rows().clone();
    let items1 = db.module_item_rows().clone();
    let status1 = db.status_rows().clone();

    run_pass(&mut db, &inputs(), NOW + 60);

    assert_eq!(db.course_rows().len(), courses1.len());
    assert_eq!(db.assignment_rows().len(), asg1.len());
    assert_eq!(db.discussion_rows().len(), disc1.len());
    assert_eq!(db.module_rows().len(), mods1.len());
    assert_eq!(db.module_item_rows().len(), items1.len());
    assert_eq!(db.status_rows().len(), status1.len());

    for (a, b) in courses1.iter().zip(db.course_rows().iter()) {
        assert_eq!(a.id, b.id);
        assert_eq!(a.name, b.name);
        assert_eq!(a.course_code, b.course_code);
        assert_ne!(a.last_sync, b.last_sync);
    }
    for (a, b) in asg1.iter().zip(db.assignment_rows().iter()) {
        assert_eq!(a.id, b.id);
        assert_eq!(a.course_id, b.course_id);
        assert_eq!(a.name, b.name);
        assert_ne!(a.last_sync, b.last_sync);
    }
    for (a, b) in disc1.iter().zip(db.discussion_rows().iter()) {
        assert_eq!(a.id, b.id);
        assert_eq!(a.title, b.title);
        assert_ne!(a.last_sync, b.last_sync);
    }
    for (a, b) in mods1.iter().zip(db.module_rows().iter()) {
        assert_eq!(a.id, b.id);
        assert_eq!(a.name, b.name);
        assert_ne!(a.last_sync, b.last_sync);
    }
    for (a, b) in items1.iter().zip(db.module_item_rows().iter()) {
        assert_eq!(a.id, b.id);
        assert_eq!(a.title, b.title);
        assert_ne!(a.last_sync, b.last_sync);
    }
    for (a, b) in status1.iter().zip(db.status_rows().iter()) {
        assert_eq!(a.entity_type, b.entity_type);
        assert_ne!(a.last_sync, b.last_sync);
    }
}

// A module whose item fetch failed keeps its own row; its items are absent
// and the failure names the module.
#[test]
fn item_fetch_failure_skips_only_that_module() {
    let mut db = Database::new();
    let inputs = vec![CourseInput {
        course: course(1, "A", "A1"),
        assignments: Ok(vec![]),
        discussions: Ok(vec![]),
        modules: Ok(vec![
            ModuleInput {
                module: module(21, "M1"),
                items: Err(FetchError::AuthOrStatus),
            },
            ModuleInput {
                module: module(22, "M2"),
                items: Ok(vec![item(32, 22, "I2")]),
            },
        ]),
    }];
    let report = run_pass(&mut db, &inputs, NOW);

    assert!(db.module_rows().iter().any(|r| r.id == 21));
    assert!(db.module_rows().iter().any(|r| r.id == 22));
    assert!(db.module_item_rows().iter().all(|r| r.module_id != 21));
    assert!(db.module_item_rows().iter().any(|r| r.id == 32));
    assert_eq!(report.failures.len(), 1);
    assert_eq!(report.failures[0].kind, EntityKind::ModuleItem);
    assert_eq!(report.failures[0].id, 21);
}

// A stored timestamp that does not parse reads as "now" and is never stale;
// an old well-formed one is.
#[test]
fn malformed_timestamp_is_never_stale() {
    let mut db = Database::new();
    db.upsert_course_row(CourseRow {
        id: 1,
        name: None,
        course_code: None,
        enrollment_term_id: None,
        total_students: None,
        start_at: None,
        end_at: None,
        last_sync: "not a timestamp".to_string(),
    });
    db.upsert_course_row(CourseRow {
        id: 2,
        name: None,
        course_code: None,
        enrollment_term_id: None,
        total_students: None,
        start_at: None,
        end_at: None,
        // 2020-01-01T00:00:00Z, far older than any threshold here.
        last_sync: "2020-01-01T00:00:00+00:00".to_string(),
    });

    let stale = db.get_stale_courses(6, NOW);
    assert!(!stale.contains(&1));
    assert!(stale.contains(&2));
}

// The sync-record listing parses stored stamps back to the instant they
// were written with, and keeps one row per type name.
#[test]
fn sync_status_round_trips_instants() {
    let mut db = Database::new();
    db.update_sync_status("assignments", NOW).unwrap();
    db.update_sync_status("assignments", NOW + 5).unwrap();
    db.update_sync_status("modules", NOW + 9).unwrap();

    let status = db.get_sync_status(0);
    assert_eq!(status.len(), 2);
    assert_eq!(status[0].0, "assignments");
    assert_eq!(status[0].1, NOW + 5);
    assert_eq!(status[1].0, "modules");
    assert_eq!(status[1].1, NOW + 9);
}
