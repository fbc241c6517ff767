//! Typed records of the remote catalogue, as the synchronization core reads
//! them.
//!
//! Remote timestamps are held as unix seconds; the number a score can carry
//! fractions, so it is held losslessly as the bit pattern of its wire value.

use vstd::prelude::*;

verus! {

/// A course: the root entity, parent of assignments, discussions and modules.
#[derive(Clone, Debug)]
pub struct Course {
    pub id: u64,
    pub name: Option<String>,
    pub course_code: Option<String>,
    pub enrollment_term_id: Option<u64>,
    pub total_students: Option<u64>,
    /// Course start, unix seconds.
    pub start_at: Option<i64>,
    /// Course end, unix seconds.
    pub end_at: Option<i64>,
}

/// An assignment of a course.
#[derive(Clone, Debug)]
pub struct Assignment {
    pub id: u64,
    pub name: String,
    pub description: Option<String>,
    /// Due instant, unix seconds.
    pub due_at: Option<i64>,
    /// Maximum score, as the bit pattern of its wire value.
    pub points_possible: Option<u64>,
    pub html_url: String,
    pub submission_types: Vec<String>,
    pub allowed_extensions: Option<Vec<String>>,
}

/// A discussion topic of a course.
#[derive(Clone, Debug)]
pub struct Discussion {
    pub id: u64,
    pub title: String,
    pub message: String,
    pub html_url: String,
    /// Posting instant, unix seconds.
    pub posted_at: Option<i64>,
    pub allow_rating: bool,
    pub user_can_see_posts: bool,
    pub discussion_type: String,
    pub discussion_subentry_count: i32,
    pub published: bool,
    pub locked: bool,
    pub pinned: bool,
}

/// A module of a course, parent of module items.
#[derive(Clone, Debug)]
pub struct Module {
    pub id: u64,
    pub name: String,
    pub position: i32,
    /// Unlock instant, unix seconds.
    pub unlock_at: Option<i64>,
    pub require_sequential_progress: bool,
    pub publish_final_grade: bool,
    pub prerequisite_module_ids: Option<Vec<u64>>,
    pub state: String,
    /// Completion instant, unix seconds.
    pub completed_at: Option<i64>,
    pub items_count: i32,
    pub items_url: String,
}

/// A single item of a module.
#[derive(Clone, Debug)]
pub struct ModuleItem {
    pub id: u64,
    pub module_id: u64,
    pub position: i32,
    pub title: String,
    pub indent: i32,
    pub item_type: String,
    pub html_url: String,
    pub content_id: Option<u64>,
    pub external_url: Option<String>,
    pub completion_requirement: Option<CompletionRequirement>,
}

/// What completing a module item takes.
#[derive(Clone, Debug)]
pub struct CompletionRequirement {
    pub requirement_type: String,
    /// Minimum score, as the bit pattern of its wire value.
    pub min_score: Option<u64>,
    pub completed: bool,
}

/// The text of an optional string, field by field.
pub open spec fn opt_view(o: Option<String>) -> Option<Seq<char>> {
    match o {
        Some(s) => Some(s@),
        None => None,
    }
}

} // verus!
