use canvas_cli::models::{Assignment, Course, Discussion, Module, ModuleItem};
use canvas_cli::store::Database;

// A fixed instant for writes, so the clock is injected rather than read.
const NOW: i64 = 1_700_000_000;
const DAY: i64 = 86_400;

fn create_test_db() -> Database {
    Database::new()
}

fn create_test_course() -> Course {
    Course {
        id: 1,
        name: Some("Test Course".to_string()),
        course_code: Some("TEST101".to_string()),
        enrollment_term_id: Some(1),
        total_students: Some(30),
        start_at: Some(NOW),
        end_at: Some(NOW + 90 * DAY),
    }
}

fn create_test_assignment() -> Assignment {
    Assignment {
        id: 1,
        name: "Test Assignment".to_string(),
        description: Some("Test Description".to_string()),
        due_at: Some(NOW + 7 * DAY),
        points_possible: Some((100.0f64).to_bits()),
        html_url: "http://test.com/assignment".to_string(),
        submission_types: vec!["online_upload".to_string()],
        allowed_extensions: Some(vec!["pdf".to_string()]),
    }
}

fn create_test_discussion() -> Discussion {
    Discussion {
        id: 1,
        title: "Test Discussion".to_string(),
        message: "Test Message".to_string(),
        html_url: "http://test.com/discussion".to_string(),
        posted_at: Some(NOW),
        allow_rating: true,
        user_can_see_posts: true,
        discussion_type: "threaded".to_string(),
        discussion_subentry_count: 0,
        published: true,
        locked: false,
        pinned: true,
    }
}

fn create_test_module() -> Module {
    Module {
        id: 1,
        name: "Test Module".to_string(),
        position: 1,
        unlock_at: Some(NOW),
        require_sequential_progress: false,
        publish_final_grade: false,
        prerequisite_module_ids: None,
        state: "active".to_string(),
        completed_at: None,
        items_count: 0,
        items_url: "http://test.com/items".to_string(),
    }
}

fn create_test_module_item(module_id: u64) -> ModuleItem {
    ModuleItem {
        id: 1,
        module_id,
        position: 1,
        title: "Test Item".to_string(),
        indent: 0,
        item_type: "Assignment".to_string(),
        html_url: "http://test.com/item".to_string(),
        content_id: Some(1),
        external_url: None,
        completion_requirement: None,
    }
}

#[test]
fn test_database_initialization() {
    let db = create_test_db();

    assert!(db.course_rows().is_empty());
    assert!(db.assignment_rows().is_empty());
    assert!(db.discussion_rows().is_empty());
    assert!(db.module_rows().is_empty());
    assert!(db.module_item_rows().is_empty());
    assert!(db.get_sync_status(NOW).is_empty());
}

#[test]
fn test_sync_course() {
    let mut db = create_test_db();
    let course = create_test_course();

    assert!(db.sync_course(&course, NOW).is_ok());

    let saved_name: String = db
        .course_rows()
        .iter()
        .find(|r| r.id == course.id)
        .unwrap()
        .name
        .clone()
        .unwrap();

    assert_eq!(saved_name, course.name.unwrap());
}

#[test]
fn test_sync_assignment() {
    let mut db = create_test_db();
    let course = create_test_course();
    let assignment = create_test_assignment();

    db.sync_course(&course, NOW).unwrap();
    assert!(db.sync_assignment(course.id, &assignment, NOW).is_ok());

    let saved_name: String = db
        .assignment_rows()
        .iter()
        .find(|r| r.id == assignment.id)
        .unwrap()
        .name
        .clone();

    assert_eq!(saved_name, assignment.name);
}

#[test]
fn test_sync_discussion() {
    let mut db = create_test_db();
    let course = create_test_course();
    let discussion = create_test_discussion();

    db.sync_course(&course, NOW).unwrap();
    assert!(db.sync_discussion(course.id, &discussion, NOW).is_ok());

    let saved_title: String = db
        .discussion_rows()
        .iter()
        .find(|r| r.id == discussion.id)
        .unwrap()
        .title
        .clone();

    assert_eq!(saved_title, discussion.title);
}

#[test]
fn test_get_stale_courses() {
    let mut db = create_test_db();
    let course = create_test_course();

    db.sync_course(&course, NOW).unwrap();

    // Seven hours later the course is older than a six-hour threshold.
    let later = NOW + 7 * 3600;
    let stale_courses = db.get_stale_courses(6, later);
    assert!(stale_courses.contains(&course.id));

    db.sync_course(&course, later).unwrap();
    let fresh_courses = db.get_stale_courses(6, later);
    assert!(!fresh_courses.contains(&course.id));
}

#[test]
fn test_sync_module() {
    let mut db = create_test_db();
    let course = create_test_course();
    let module = create_test_module();

    db.sync_course(&course, NOW).unwrap();
    assert!(db.sync_module(course.id, &module, NOW).is_ok());

    let saved_name: String = db
        .module_rows()
        .iter()
        .find(|r| r.id == module.id)
        .unwrap()
        .name
        .clone();

    assert_eq!(saved_name, module.name);
}

#[test]
fn test_sync_module_item() {
    let mut db = create_test_db();
    let course = create_test_course();
    let module = create_test_module();
    let item = create_test_module_item(module.id);

    db.sync_course(&course, NOW).unwrap();
    db.sync_module(course.id, &module, NOW).unwrap();
    assert!(db.sync_module_item(module.id, &item, NOW).is_ok());

    let saved_title: String = db
        .module_item_rows()
        .iter()
        .find(|r| r.id == item.id)
        .unwrap()
        .title
        .clone();

    assert_eq!(saved_title, item.title);
}

#[test]
fn test_sync_status() {
    let mut db = create_test_db();

    assert!(db.update_sync_status("courses", NOW).is_ok());

    let status = db.get_sync_status(NOW);
    assert!(!status.is_empty());
    assert_eq!(status[0].0, "courses");
}
