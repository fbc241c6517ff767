//! The local store: an in-memory relational mirror of the remote catalogue,
//! one table per entity type plus one sync-record table.
//!
//! Every write is an insert-or-replace keyed by the remote identifier and
//! stamps the row's `last_sync` with the moment of the write. Child rows may
//! only reference parents already present; writes that would break that, or
//! whose timestamp the store cannot represent, are refused as storage
//! failures. The staleness query parses stored timestamps and treats
//! malformed text as "now", so a damaged row is never reported stale.

use vstd::prelude::*;

use crate::models::{opt_view, Assignment, Course, Discussion, Module, ModuleItem};
use crate::strutil::{str_eq, str_to_owned};
use crate::table::{
    has_key, idx_of, lemma_idx_of, lemma_upsert, unique_keys, upsert, Row, RowVal,
};
use crate::timefmt::{
    eff_time, format_rfc3339, parse_rfc3339, rfc3339_of, rfc3339_secs, valid_ts, MAX_STORE_TS,
};

verus! {

/// Why the store refused a write.
#[derive(Clone, Copy, Debug, PartialEq, Eq, Structural)]
pub enum StorageError {
    /// The write's timestamp lies outside what the store can format.
    TimestampOutOfRange,
    /// The row references a parent the store does not hold.
    MissingParent,
}

/// A row of the courses table.
#[derive(Clone, Debug)]
pub struct CourseRow {
    pub id: u64,
    pub name: Option<String>,
    pub course_code: Option<String>,
    pub enrollment_term_id: Option<u64>,
    pub total_students: Option<u64>,
    pub start_at: Option<i64>,
    pub end_at: Option<i64>,
    pub last_sync: String,
}

/// A row of the assignments table.
#[derive(Clone, Debug)]
pub struct AssignmentRow {
    pub id: u64,
    pub course_id: u64,
    pub name: String,
    pub description: Option<String>,
    pub due_at: Option<i64>,
    pub points_possible: Option<u64>,
    pub html_url: String,
    pub last_sync: String,
}

/// A row of the discussions table.
#[derive(Clone, Debug)]
pub struct DiscussionRow {
    pub id: u64,
    pub course_id: u64,
    pub title: String,
    pub message: String,
    pub posted_at: Option<i64>,
    pub discussion_type: String,
    pub pinned: bool,
    pub last_sync: String,
}

/// A row of the modules table.
#[derive(Clone, Debug)]
pub struct ModuleRow {
    pub id: u64,
    pub course_id: u64,
    pub name: String,
    pub position: i32,
    pub unlock_at: Option<i64>,
    pub state: String,
    pub completed_at: Option<i64>,
    pub last_sync: String,
}

/// A row of the module-items table.
#[derive(Clone, Debug)]
pub struct ModuleItemRow {
    pub id: u64,
    pub module_id: u64,
    pub position: i32,
    pub title: String,
    pub item_type: String,
    pub content_id: Option<u64>,
    pub last_sync: String,
}

/// A row of the sync-record table: one per tracked entity-type name.
#[derive(Clone, Debug)]
pub struct SyncStatusRow {
    pub entity_type: String,
    pub last_sync: String,
}

impl View for CourseRow {
    type V = Row<u64>;

    open spec fn view(&self) -> Row<u64> {
        Row {
            key: self.id,
            val: RowVal::Course {
                name: opt_view(self.name),
                course_code: opt_view(self.course_code),
                enrollment_term_id: self.enrollment_term_id,
                total_students: self.total_students,
                start_at: self.start_at,
                end_at: self.end_at,
            },
            last_sync: self.last_sync@,
        }
    }
}

impl View for AssignmentRow {
    type V = Row<u64>;

    open spec fn view(&self) -> Row<u64> {
        Row {
            key: self.id,
            val: RowVal::Assignment {
                course_id: self.course_id,
                name: self.name@,
                description: opt_view(self.description),
                due_at: self.due_at,
                points_possible: self.points_possible,
                html_url: self.html_url@,
            },
            last_sync: self.last_sync@,
        }
    }
}

impl View for DiscussionRow {
    type V = Row<u64>;

    open spec fn view(&self) -> Row<u64> {
        Row {
            key: self.id,
            val: RowVal::Discussion {
                course_id: self.course_id,
                title: self.title@,
                message: self.message@,
                posted_at: self.posted_at,
                discussion_type: self.discussion_type@,
                pinned: self.pinned,
            },
            last_sync: self.last_sync@,
        }
    }
}

impl View for ModuleRow {
    type V = Row<u64>;

    open spec fn view(&self) -> Row<u64> {
        Row {
            key: self.id,
            val: RowVal::Module {
                course_id: self.course_id,
                name: self.name@,
                position: self.position,
                unlock_at: self.unlock_at,
                state: self.state@,
                completed_at: self.completed_at,
            },
            last_sync: self.last_sync@,
        }
    }
}

impl View for ModuleItemRow {
    type V = Row<u64>;

    open spec fn view(&self) -> Row<u64> {
        Row {
            key: self.id,
            val: RowVal::ModuleItem {
                module_id: self.module_id,
                position: self.position,
                title: self.title@,
                item_type: self.item_type@,
                content_id: self.content_id,
            },
            last_sync: self.last_sync@,
        }
    }
}

impl View for SyncStatusRow {
    type V = Row<Seq<char>>;

    open spec fn view(&self) -> Row<Seq<char>> {
        Row { key: self.entity_type@, val: RowVal::Status, last_sync: self.last_sync@ }
    }
}

/// The store's mathematical content: six tables of keyed rows.
#[verifier::ext_equal]
pub ghost struct StoreModel {
    pub courses: Seq<Row<u64>>,
    pub assignments: Seq<Row<u64>>,
    pub discussions: Seq<Row<u64>>,
    pub modules: Seq<Row<u64>>,
    pub module_items: Seq<Row<u64>>,
    pub sync_status: Seq<Row<Seq<char>>>,
}

/// The course a child row references.
pub open spec fn parent_course(v: RowVal) -> u64 {
    match v {
        RowVal::Assignment { course_id, .. } => course_id,
        RowVal::Discussion { course_id, .. } => course_id,
        RowVal::Module { course_id, .. } => course_id,
        _ => 0,
    }
}

/// The module a module-item row references.
pub open spec fn parent_module(v: RowVal) -> u64 {
    match v {
        RowVal::ModuleItem { module_id, .. } => module_id,
        _ => 0,
    }
}

/// Well-formedness of the store: keys are unique in every table, each table
/// holds its own kind of row, and every child references a present parent.
pub open spec fn wf_model(m: StoreModel) -> bool {
    &&& unique_keys(m.courses)
    &&& unique_keys(m.assignments)
    &&& unique_keys(m.discussions)
    &&& unique_keys(m.modules)
    &&& unique_keys(m.module_items)
    &&& unique_keys(m.sync_status)
    &&& forall|i: int| 0 <= i < m.courses.len() ==> (#[trigger] m.courses[i].val) is Course
    &&& forall|i: int|
        0 <= i < m.assignments.len() ==> (#[trigger] m.assignments[i].val) is Assignment
            && has_key(m.courses, parent_course(m.assignments[i].val))
    &&& forall|i: int|
        0 <= i < m.discussions.len() ==> (#[trigger] m.discussions[i].val) is Discussion
            && has_key(m.courses, parent_course(m.discussions[i].val))
    &&& forall|i: int|
        0 <= i < m.modules.len() ==> (#[trigger] m.modules[i].val) is Module && has_key(
            m.courses,
            parent_course(m.modules[i].val),
        )
    &&& forall|i: int|
        0 <= i < m.module_items.len() ==> (#[trigger] m.module_items[i].val) is ModuleItem
            && has_key(m.modules, parent_module(m.module_items[i].val))
    &&& forall|i: int| 0 <= i < m.sync_status.len() ==> (#[trigger] m.sync_status[i].val) is Status
}

/// The courses row a write of `c` at `now` produces.
pub open spec fn course_row(c: Course, now: i64) -> Row<u64> {
    Row {
        key: c.id,
        val: RowVal::Course {
            name: opt_view(c.name),
            course_code: opt_view(c.course_code),
            enrollment_term_id: c.enrollment_term_id,
            total_students: c.total_students,
            start_at: c.start_at,
            end_at: c.end_at,
        },
        last_sync: rfc3339_of(now),
    }
}

/// The assignments row a write of `a` under `course_id` at `now` produces.
pub open spec fn assignment_row(course_id: u64, a: Assignment, now: i64) -> Row<u64> {
    Row {
        key: a.id,
        val: RowVal::Assignment {
            course_id: course_id,
            name: a.name@,
            description: opt_view(a.description),
            due_at: a.due_at,
            points_possible: a.points_possible,
            html_url: a.html_url@,
        },
        last_sync: rfc3339_of(now),
    }
}

/// The discussions row a write of `d` under `course_id` at `now` produces.
pub open spec fn discussion_row(course_id: u64, d: Discussion, now: i64) -> Row<u64> {
    Row {
        key: d.id,
        val: RowVal::Discussion {
            course_id: course_id,
            title: d.title@,
            message: d.message@,
            posted_at: d.posted_at,
            discussion_type: d.discussion_type@,
            pinned: d.pinned,
        },
        last_sync: rfc3339_of(now),
    }
}

/// The modules row a write of `m` under `course_id` at `now` produces.
pub open spec fn module_row(course_id: u64, m: Module, now: i64) -> Row<u64> {
    Row {
        key: m.id,
        val: RowVal::Module {
            course_id: course_id,
            name: m.name@,
            position: m.position,
            unlock_at: m.unlock_at,
            state: m.state@,
            completed_at: m.completed_at,
        },
        last_sync: rfc3339_of(now),
    }
}

/// The module-items row a write of `it` under `module_id` at `now` produces.
pub open spec fn module_item_row(module_id: u64, it: ModuleItem, now: i64) -> Row<u64> {
    Row {
        key: it.id,
        val: RowVal::ModuleItem {
            module_id: module_id,
            position: it.position,
            title: it.title@,
            item_type: it.item_type@,
            content_id: it.content_id,
        },
        last_sync: rfc3339_of(now),
    }
}

/// The sync-record row a mark of `name` at `now` produces.
pub open spec fn status_row(name: Seq<char>, now: i64) -> Row<Seq<char>> {
    Row { key: name, val: RowVal::Status, last_sync: rfc3339_of(now) }
}

/// Whether a courses row counts as stale at `now` under a threshold of
/// `hours`: its effective timestamp lies strictly before the cutoff.
pub open spec fn is_stale(row: Row<u64>, hours: i64, now: i64) -> bool {
    eff_time(row.last_sync, now) < now - hours * 3600
}

/// The identifiers of the stale courses rows, in table order.
pub open spec fn stale_ids(s: Seq<Row<u64>>, hours: i64, now: i64) -> Seq<u64>
    decreases s.len(),
{
    if s.len() == 0 {
        Seq::empty()
    } else {
        stale_ids(s.drop_last(), hours, now) + if is_stale(s.last(), hours, now) {
            seq![s.last().key]
        } else {
            Seq::empty()
        }
    }
}

/// Mapping a view over an updated sequence updates the mapped sequence.
proof fn lemma_map_update<A, B>(s: Seq<A>, f: spec_fn(A) -> B, i: int, x: A)
    requires
        0 <= i < s.len(),
    ensures
        s.update(i, x).map_values(f) == s.map_values(f).update(i, f(x)),
{
    assert(s.update(i, x).map_values(f) =~= s.map_values(f).update(i, f(x)));
}

/// Mapping a view over an extended sequence extends the mapped sequence.
proof fn lemma_map_push<A, B>(s: Seq<A>, f: spec_fn(A) -> B, x: A)
    ensures
        s.push(x).map_values(f) == s.map_values(f).push(f(x)),
{
    assert(s.push(x).map_values(f) =~= s.map_values(f).push(f(x)));
}

/// The text of an optional string, cloned.
fn clone_opt_string(o: &Option<String>) -> (r: Option<String>)
    ensures
        opt_view(r) == opt_view(*o),
{
    match o {
        Some(s) => Some(s.clone()),
        None => None,
    }
}

/// The local store. All writes stamp `last_sync`; all reads are over the
/// tables as they stand.
pub struct Database {
    courses: Vec<CourseRow>,
    assignments: Vec<AssignmentRow>,
    discussions: Vec<DiscussionRow>,
    modules: Vec<ModuleRow>,
    module_items: Vec<ModuleItemRow>,
    sync_status: Vec<SyncStatusRow>,
}

impl View for Database {
    type V = StoreModel;

    closed spec fn view(&self) -> StoreModel {
        StoreModel {
            courses: self.courses@.map_values(|r: CourseRow| r@),
            assignments: self.assignments@.map_values(|r: AssignmentRow| r@),
            discussions: self.discussions@.map_values(|r: DiscussionRow| r@),
            modules: self.modules@.map_values(|r: ModuleRow| r@),
            module_items: self.module_items@.map_values(|r: ModuleItemRow| r@),
            sync_status: self.sync_status@.map_values(|r: SyncStatusRow| r@),
        }
    }
}

impl Database {
    /// A store with the schema in place and every table empty.
    pub fn new() -> (db: Database)
        ensures
            db@.courses.len() == 0,
            db@.assignments.len() == 0,
            db@.discussions.len() == 0,
            db@.modules.len() == 0,
            db@.module_items.len() == 0,
            db@.sync_status.len() == 0,
            wf_model(db@),
    {
        let db = Database {
            courses: Vec::new(),
            assignments: Vec::new(),
            discussions: Vec::new(),
            modules: Vec::new(),
            module_items: Vec::new(),
            sync_status: Vec::new(),
        };
        proof {
            assert(db@.courses =~= Seq::<Row<u64>>::empty());
            assert(db@.assignments =~= Seq::<Row<u64>>::empty());
            assert(db@.discussions =~= Seq::<Row<u64>>::empty());
            assert(db@.modules =~= Seq::<Row<u64>>::empty());
            assert(db@.module_items =~= Seq::<Row<u64>>::empty());
            assert(db@.sync_status =~= Seq::<Row<Seq<char>>>::empty());
        }
        db
    }

    /// Index of the courses row with `id`, if present.
    fn find_course_idx(&self, id: u64) -> (r: Option<usize>)
        ensures
            match r {
                Some(i) => has_key(self@.courses, id) && i as int == idx_of(self@.courses, id),
                None => !has_key(self@.courses, id),
            },
    {
        let n = self.courses.len();
        for j in 0..n
            invariant
                n == self.courses.len(),
                forall|p: int| 0 <= p < j ==> #[trigger] self@.courses[p].key != id,
        {
            if self.courses[j].id == id {
                proof {
                    lemma_idx_of(self@.courses, id);
                    assert(self@.courses[j as int].key == id);
                    if idx_of(self@.courses, id) < j as int {
                        assert(false);
                    }
                }
                return Some(j);
            }
        }
        proof {
            lemma_idx_of(self@.courses, id);
            if has_key(self@.courses, id) {
                assert(self@.courses[idx_of(self@.courses, id)].key == id);
            }
        }
        None
    }

    /// Index of the assignments row with `id`, if present.
    fn find_assignment_idx(&self, id: u64) -> (r: Option<usize>)
        ensures
            match r {
                Some(i) => has_key(self@.assignments, id) && i as int == idx_of(
                    self@.assignments,
                    id,
                ),
                None => !has_key(self@.assignments, id),
            },
    {
        let n = self.assignments.len();
        for j in 0..n
            invariant
                n == self.assignments.len(),
                forall|p: int| 0 <= p < j ==> #[trigger] self@.assignments[p].key != id,
        {
            if self.assignments[j].id == id {
                proof {
                    lemma_idx_of(self@.assignments, id);
                    assert(self@.assignments[j as int].key == id);
                    if idx_of(self@.assignments, id) < j as int {
                        assert(false);
                    }
                }
                return Some(j);
            }
        }
        proof {
            lemma_idx_of(self@.assignments, id);
            if has_key(self@.assignments, id) {
                assert(self@.assignments[idx_of(self@.assignments, id)].key == id);
            }
        }
        None
    }

    /// Index of the discussions row with `id`, if present.
    fn find_discussion_idx(&self, id: u64) -> (r: Option<usize>)
        ensures
            match r {
                Some(i) => has_key(self@.discussions, id) && i as int == idx_of(
                    self@.discussions,
                    id,
                ),
                None => !has_key(self@.discussions, id),
            },
    {
        let n = self.discussions.len();
        for j in 0..n
            invariant
                n == self.discussions.len(),
                forall|p: int| 0 <= p < j ==> #[trigger] self@.discussions[p].key != id,
        {
            if self.discussions[j].id == id {
                proof {
                    lemma_idx_of(self@.discussions, id);
                    assert(self@.discussions[j as int].key == id);
                    if idx_of(self@.discussions, id) < j as int {
                        assert(false);
                    }
                }
                return Some(j);
            }
        }
        proof {
            lemma_idx_of(self@.discussions, id);
            if has_key(self@.discussions, id) {
                assert(self@.discussions[idx_of(self@.discussions, id)].key == id);
            }
        }
        None
    }

    /// Index of the modules row with `id`, if present.
    fn find_module_idx(&self, id: u64) -> (r: Option<usize>)
        ensures
            match r {
                Some(i) => has_key(self@.modules, id) && i as int == idx_of(self@.modules, id),
                None => !has_key(self@.modules, id),
            },
    {
        let n = self.modules.len();
        for j in 0..n
            invariant
                n == self.modules.len(),
                forall|p: int| 0 <= p < j ==> #[trigger] self@.modules[p].key != id,
        {
            if self.modules[j].id == id {
                proof {
                    lemma_idx_of(self@.modules, id);
                    assert(self@.modules[j as int].key == id);
                    if idx_of(self@.modules, id) < j as int {
                        assert(false);
                    }
                }
                return Some(j);
            }
        }
        proof {
            lemma_idx_of(self@.modules, id);
            if has_key(self@.modules, id) {
                assert(self@.modules[idx_of(self@.modules, id)].key == id);
            }
        }
        None
    }

    /// Index of the module-items row with `id`, if present.
    fn find_module_item_idx(&self, id: u64) -> (r: Option<usize>)
        ensures
            match r {
                Some(i) => has_key(self@.module_items, id) && i as int == idx_of(
                    self@.module_items,
                    id,
                ),
                None => !has_key(self@.module_items, id),
            },
    {
        let n = self.module_items.len();
        for j in 0..n
            invariant
                n == self.module_items.len(),
                forall|p: int| 0 <= p < j ==> #[trigger] self@.module_items[p].key != id,
        {
            if self.module_items[j].id == id {
                proof {
                    lemma_idx_of(self@.module_items, id);
                    assert(self@.module_items[j as int].key == id);
                    if idx_of(self@.module_items, id) < j as int {
                        assert(false);
                    }
                }
                return Some(j);
            }
        }
        proof {
            lemma_idx_of(self@.module_items, id);
            if has_key(self@.module_items, id) {
                assert(self@.module_items[idx_of(self@.module_items, id)].key == id);
            }
        }
        None
    }

    /// Index of the sync-record row named `name`, if present.
    fn find_status_idx(&self, name: &str) -> (r: Option<usize>)
        ensures
            match r {
                Some(i) => has_key(self@.sync_status, name@) && i as int == idx_of(
                    self@.sync_status,
                    name@,
                ),
                None => !has_key(self@.sync_status, name@),
            },
    {
        let n = self.sync_status.len();
        for j in 0..n
            invariant
                n == self.sync_status.len(),
                forall|p: int| 0 <= p < j ==> #[trigger] self@.sync_status[p].key != name@,
        {
            if str_eq(self.sync_status[j].entity_type.as_str(), name) {
                proof {
                    lemma_idx_of(self@.sync_status, name@);
                    assert(self@.sync_status[j as int].key == name@);
                    if idx_of(self@.sync_status, name@) < j as int {
                        assert(false);
                    }
                }
                return Some(j);
            }
        }
        proof {
            lemma_idx_of(self@.sync_status, name@);
            if has_key(self@.sync_status, name@) {
                assert(self@.sync_status[idx_of(self@.sync_status, name@)].key == name@);
            }
        }
        None
    }

    /// Insert-or-replace a courses row as it stands, `last_sync` text
    /// included. This is how persisted state, well-formed or not, re-enters
    /// the store.
    pub fn upsert_course_row(&mut self, row: CourseRow)
        requires
            wf_model(old(self)@),
        ensures
            wf_model(final(self)@),
            final(self)@ == (StoreModel { courses: upsert(old(self)@.courses, row@), ..old(self)@ }),
    {
        let ghost m = self@;
        let ghost rv = row@;
        proof {
            lemma_upsert(m.courses, rv);
        }
        match self.find_course_idx(row.id) {
            Some(i) => {
                proof {
                    lemma_map_update(self.courses@, |r: CourseRow| r@, i as int, row);
                }
                self.courses[i] = row;
            },
            None => {
                proof {
                    lemma_map_push(self.courses@, |r: CourseRow| r@, row);
                }
                self.courses.push(row);
            },
        }
        proof {
            assert(self@ =~= StoreModel { courses: upsert(m.courses, rv), ..m });
            lemma_idx_of(m.courses, rv.key);
            let mm = self@;
            assert forall|i: int|
                0 <= i < mm.assignments.len() implies (#[trigger] mm.assignments[i].val)
                is Assignment && has_key(mm.courses, parent_course(mm.assignments[i].val)) by {
                assert(m.assignments[i].val is Assignment);
            }
            assert forall|i: int|
                0 <= i < mm.discussions.len() implies (#[trigger] mm.discussions[i].val)
                is Discussion && has_key(mm.courses, parent_course(mm.discussions[i].val)) by {
                assert(m.discussions[i].val is Discussion);
            }
            assert forall|i: int|
                0 <= i < mm.modules.len() implies (#[trigger] mm.modules[i].val) is Module
                && has_key(mm.courses, parent_course(mm.modules[i].val)) by {
                assert(m.modules[i].val is Module);
            }
            assert forall|i: int|
                0 <= i < mm.courses.len() implies (#[trigger] mm.courses[i].val) is Course by {
                if i != idx_of(m.courses, rv.key) {
                    assert(mm.courses[i] == m.courses[i]);
                }
            }
        }
    }

    /// Insert-or-replace an assignments row as it stands; refused when its
    /// course is absent.
    pub fn upsert_assignment_row(&mut self, row: AssignmentRow) -> (r: Result<(), StorageError>)
        requires
            wf_model(old(self)@),
        ensures
            wf_model(final(self)@),
            r is Ok <==> has_key(old(self)@.courses, row.course_id),
            r is Ok ==> final(self)@ == (StoreModel {
                assignments: upsert(old(self)@.assignments, row@),
                ..old(self)@
            }),
            r is Err ==> final(self)@ == old(self)@ && r == Err::<(), StorageError>(
                StorageError::MissingParent,
            ),
    {
        let ghost m = self@;
        let ghost rv = row@;
        if self.find_course_idx(row.course_id).is_none() {
            return Err(StorageError::MissingParent);
        }
        proof {
            lemma_upsert(m.assignments, rv);
        }
        match self.find_assignment_idx(row.id) {
            Some(i) => {
                proof {
                    lemma_map_update(self.assignments@, |r: AssignmentRow| r@, i as int, row);
                }
                self.assignments[i] = row;
            },
            None => {
                proof {
                    lemma_map_push(self.assignments@, |r: AssignmentRow| r@, row);
                }
                self.assignments.push(row);
            },
        }
        proof {
            assert(self@ =~= StoreModel { assignments: upsert(m.assignments, rv), ..m });
            lemma_idx_of(m.assignments, rv.key);
            let mm = self@;
            assert forall|i: int|
                0 <= i < mm.assignments.len() implies (#[trigger] mm.assignments[i].val)
                is Assignment && has_key(mm.courses, parent_course(mm.assignments[i].val)) by {
                if i != idx_of(m.assignments, rv.key) || !has_key(m.assignments, rv.key) && i
                    != m.assignments.len() {
                    assert(mm.assignments[i] == m.assignments[i]);
                }
            }
        }
        Ok(())
    }

    /// Insert-or-replace a discussions row as it stands; refused when its
    /// course is absent.
    pub fn upsert_discussion_row(&mut self, row: DiscussionRow) -> (r: Result<(), StorageError>)
        requires
            wf_model(old(self)@),
        ensures
            wf_model(final(self)@),
            r is Ok <==> has_key(old(self)@.courses, row.course_id),
            r is Ok ==> final(self)@ == (StoreModel {
                discussions: upsert(old(self)@.discussions, row@),
                ..old(self)@
            }),
            r is Err ==> final(self)@ == old(self)@ && r == Err::<(), StorageError>(
                StorageError::MissingParent,
            ),
    {
        let ghost m = self@;
        let ghost rv = row@;
        if self.find_course_idx(row.course_id).is_none() {
            return Err(StorageError::MissingParent);
        }
        proof {
            lemma_upsert(m.discussions, rv);
        }
        match self.find_discussion_idx(row.id) {
            Some(i) => {
                proof {
                    lemma_map_update(self.discussions@, |r: DiscussionRow| r@, i as int, row);
                }
                self.discussions[i] = row;
            },
            None => {
                proof {
                    lemma_map_push(self.discussions@, |r: DiscussionRow| r@, row);
                }
                self.discussions.push(row);
            },
        }
        proof {
            assert(self@ =~= StoreModel { discussions: upsert(m.discussions, rv), ..m });
            lemma_idx_of(m.discussions, rv.key);
            let mm = self@;
            assert forall|i: int|
                0 <= i < mm.discussions.len() implies (#[trigger] mm.discussions[i].val)
                is Discussion && has_key(mm.courses, parent_course(mm.discussions[i].val)) by {
                if i != idx_of(m.discussions, rv.key) || !has_key(m.discussions, rv.key) && i
                    != m.discussions.len() {
                    assert(mm.discussions[i] == m.discussions[i]);
                }
            }
        }
        Ok(())
    }

    /// Insert-or-replace a modules row as it stands; refused when its course
    /// is absent.
    pub fn upsert_module_row(&mut self, row: ModuleRow) -> (r: Result<(), StorageError>)
        requires
            wf_model(old(self)@),
        ensures
            wf_model(final(self)@),
            r is Ok <==> has_key(old(self)@.courses, row.course_id),
            r is Ok ==> final(self)@ == (StoreModel {
                modules: upsert(old(self)@.modules, row@),
                ..old(self)@
            }),
            r is Err ==> final(self)@ == old(self)@ && r == Err::<(), StorageError>(
                StorageError::MissingParent,
            ),
    {
        let ghost m = self@;
        let ghost rv = row@;
        if self.find_course_idx(row.course_id).is_none() {
            return Err(StorageError::MissingParent);
        }
        proof {
            lemma_upsert(m.modules, rv);
        }
        match self.find_module_idx(row.id) {
            Some(i) => {
                proof {
                    lemma_map_update(self.modules@, |r: ModuleRow| r@, i as int, row);
                }
                self.modules[i] = row;
            },
            None => {
                proof {
                    lemma_map_push(self.modules@, |r: ModuleRow| r@, row);
                }
                self.modules.push(row);
            },
        }
        proof {
            assert(self@ =~= StoreModel { modules: upsert(m.modules, rv), ..m });
            lemma_idx_of(m.modules, rv.key);
            let mm = self@;
            assert forall|i: int|
                0 <= i < mm.modules.len() implies (#[trigger] mm.modules[i].val) is Module
                && has_key(mm.courses, parent_course(mm.modules[i].val)) by {
                if i != idx_of(m.modules, rv.key) || !has_key(m.modules, rv.key) && i
                    != m.modules.len() {
                    assert(mm.modules[i] == m.modules[i]);
                }
            }
            assert forall|i: int|
                0 <= i < mm.module_items.len() implies (#[trigger] mm.module_items[i].val)
                is ModuleItem && has_key(mm.modules, parent_module(mm.module_items[i].val)) by {
                assert(m.module_items[i].val is ModuleItem);
                lemma_upsert(m.modules, rv);
            }
        }
        Ok(())
    }

    /// Insert-or-replace a module-items row as it stands; refused when its
    /// module is absent.
    pub fn upsert_module_item_row(&mut self, row: ModuleItemRow) -> (r: Result<(), StorageError>)
        requires
            wf_model(old(self)@),
        ensures
            wf_model(final(self)@),
            r is Ok <==> has_key(old(self)@.modules, row.module_id),
            r is Ok ==> final(self)@ == (StoreModel {
                module_items: upsert(old(self)@.module_items, row@),
                ..old(self)@
            }),
            r is Err ==> final(self)@ == old(self)@ && r == Err::<(), StorageError>(
                StorageError::MissingParent,
            ),
    {
        let ghost m = self@;
        let ghost rv = row@;
        if self.find_module_idx(row.module_id).is_none() {
            return Err(StorageError::MissingParent);
        }
        proof {
            lemma_upsert(m.module_items, rv);
        }
        match self.find_module_item_idx(row.id) {
            Some(i) => {
                proof {
                    lemma_map_update(self.module_items@, |r: ModuleItemRow| r@, i as int, row);
                }
                self.module_items[i] = row;
            },
            None => {
                proof {
                    lemma_map_push(self.module_items@, |r: ModuleItemRow| r@, row);
                }
                self.module_items.push(row);
            },
        }
        proof {
            assert(self@ =~= StoreModel { module_items: upsert(m.module_items, rv), ..m });
            lemma_idx_of(m.module_items, rv.key);
            let mm = self@;
            assert forall|i: int|
                0 <= i < mm.module_items.len() implies (#[trigger] mm.module_items[i].val)
                is ModuleItem && has_key(mm.modules, parent_module(mm.module_items[i].val)) by {
                if i != idx_of(m.module_items, rv.key) || !has_key(m.module_items, rv.key) && i
                    != m.module_items.len() {
                    assert(mm.module_items[i] == m.module_items[i]);
                }
            }
        }
        Ok(())
    }

    /// Insert-or-replace a sync-record row as it stands.
    pub fn upsert_status_row(&mut self, row: SyncStatusRow)
        requires
            wf_model(old(self)@),
        ensures
            wf_model(final(self)@),
            final(self)@ == (StoreModel {
                sync_status: upsert(old(self)@.sync_status, row@),
                ..old(self)@
            }),
    {
        let ghost m = self@;
        let ghost rv = row@;
        proof {
            lemma_upsert(m.sync_status, rv);
        }
        match self.find_status_idx(row.entity_type.as_str()) {
            Some(i) => {
                proof {
                    lemma_map_update(self.sync_status@, |r: SyncStatusRow| r@, i as int, row);
                }
                self.sync_status[i] = row;
            },
            None => {
                proof {
                    lemma_map_push(self.sync_status@, |r: SyncStatusRow| r@, row);
                }
                self.sync_status.push(row);
            },
        }
        proof {
            assert(self@ =~= StoreModel { sync_status: upsert(m.sync_status, rv), ..m });
            lemma_idx_of(m.sync_status, rv.key);
            let mm = self@;
            assert forall|i: int|
                0 <= i < mm.sync_status.len() implies (#[trigger] mm.sync_status[i].val)
                is Status by {
                if i != idx_of(m.sync_status, rv.key) || !has_key(m.sync_status, rv.key) && i
                    != m.sync_status.len() {
                    assert(mm.sync_status[i] == m.sync_status[i]);
                }
            }
        }
    }

    /// Write a course, stamping `last_sync` with `now`.
    pub fn sync_course(&mut self, course: &Course, now: i64) -> (r: Result<(), StorageError>)
        requires
            wf_model(old(self)@),
        ensures
            wf_model(final(self)@),
            r is Ok <==> valid_ts(now),
            r is Ok ==> final(self)@ == (StoreModel {
                courses: upsert(old(self)@.courses, course_row(*course, now)),
                ..old(self)@
            }),
            r is Ok ==> rfc3339_secs(rfc3339_of(now)) == Some(now),
            r is Err ==> final(self)@ == old(self)@ && r == Err::<(), StorageError>(
                StorageError::TimestampOutOfRange,
            ),
    {
        if now < 0 || now > MAX_STORE_TS {
            return Err(StorageError::TimestampOutOfRange);
        }
        let ts = format_rfc3339(now);
        let row = CourseRow {
            id: course.id,
            name: clone_opt_string(&course.name),
            course_code: clone_opt_string(&course.course_code),
            enrollment_term_id: course.enrollment_term_id,
            total_students: course.total_students,
            start_at: course.start_at,
            end_at: course.end_at,
            last_sync: ts,
        };
        assert(row@ == course_row(*course, now));
        self.upsert_course_row(row);
        Ok(())
    }

    /// Write an assignment under its course, stamping `last_sync` with `now`.
    pub fn sync_assignment(&mut self, course_id: u64, assignment: &Assignment, now: i64) -> (r:
        Result<(), StorageError>)
        requires
            wf_model(old(self)@),
        ensures
            wf_model(final(self)@),
            r is Ok <==> valid_ts(now) && has_key(old(self)@.courses, course_id),
            r is Ok ==> final(self)@ == (StoreModel {
                assignments: upsert(old(self)@.assignments, assignment_row(course_id, *assignment, now)),
                ..old(self)@
            }),
            r is Ok ==> rfc3339_secs(rfc3339_of(now)) == Some(now),
            r is Err ==> final(self)@ == old(self)@,
            !valid_ts(now) ==> r == Err::<(), StorageError>(StorageError::TimestampOutOfRange),
            valid_ts(now) && !has_key(old(self)@.courses, course_id) ==> r == Err::<(
            ), StorageError>(StorageError::MissingParent),
    {
        if now < 0 || now > MAX_STORE_TS {
            return Err(StorageError::TimestampOutOfRange);
        }
        let ts = format_rfc3339(now);
        let row = AssignmentRow {
            id: assignment.id,
            course_id: course_id,
            name: assignment.name.clone(),
            description: clone_opt_string(&assignment.description),
            due_at: assignment.due_at,
            points_possible: assignment.points_possible,
            html_url: assignment.html_url.clone(),
            last_sync: ts,
        };
        assert(row@ == assignment_row(course_id, *assignment, now));
        self.upsert_assignment_row(row)
    }

    /// Write a discussion under its course, stamping `last_sync` with `now`.
    pub fn sync_discussion(&mut self, course_id: u64, discussion: &Discussion, now: i64) -> (r:
        Result<(), StorageError>)
        requires
            wf_model(old(self)@),
        ensures
            wf_model(final(self)@),
            r is Ok <==> valid_ts(now) && has_key(old(self)@.courses, course_id),
            r is Ok ==> final(self)@ == (StoreModel {
                discussions: upsert(old(self)@.discussions, discussion_row(course_id, *discussion, now)),
                ..old(self)@
            }),
            r is Ok ==> rfc3339_secs(rfc3339_of(now)) == Some(now),
            r is Err ==> final(self)@ == old(self)@,
            !valid_ts(now) ==> r == Err::<(), StorageError>(StorageError::TimestampOutOfRange),
            valid_ts(now) && !has_key(old(self)@.courses, course_id) ==> r == Err::<(
            ), StorageError>(StorageError::MissingParent),
    {
        if now < 0 || now > MAX_STORE_TS {
            return Err(StorageError::TimestampOutOfRange);
        }
        let ts = format_rfc3339(now);
        let row = DiscussionRow {
            id: discussion.id,
            course_id: course_id,
            title: discussion.title.clone(),
            message: discussion.message.clone(),
            posted_at: discussion.posted_at,
            discussion_type: discussion.discussion_type.clone(),
            pinned: discussion.pinned,
            last_sync: ts,
        };
        assert(row@ == discussion_row(course_id, *discussion, now));
        self.upsert_discussion_row(row)
    }

    /// Write a module under its course, stamping `last_sync` with `now`.
    pub fn sync_module(&mut self, course_id: u64, module: &Module, now: i64) -> (r: Result<(
    ), StorageError>)
        requires
            wf_model(old(self)@),
        ensures
            wf_model(final(self)@),
            r is Ok <==> valid_ts(now) && has_key(old(self)@.courses, course_id),
            r is Ok ==> final(self)@ == (StoreModel {
                modules: upsert(old(self)@.modules, module_row(course_id, *module, now)),
                ..old(self)@
            }),
            r is Ok ==> rfc3339_secs(rfc3339_of(now)) == Some(now),
            r is Err ==> final(self)@ == old(self)@,
            !valid_ts(now) ==> r == Err::<(), StorageError>(StorageError::TimestampOutOfRange),
            valid_ts(now) && !has_key(old(self)@.courses, course_id) ==> r == Err::<(
            ), StorageError>(StorageError::MissingParent),
    {
        if now < 0 || now > MAX_STORE_TS {
            return Err(StorageError::TimestampOutOfRange);
        }
        let ts = format_rfc3339(now);
        let row = ModuleRow {
            id: module.id,
            course_id: course_id,
            name: module.name.clone(),
            position: module.position,
            unlock_at: module.unlock_at,
            state: module.state.clone(),
            completed_at: module.completed_at,
            last_sync: ts,
        };
        assert(row@ == module_row(course_id, *module, now));
        self.upsert_module_row(row)
    }

    /// Write a module item under its module, stamping `last_sync` with `now`.
    pub fn sync_module_item(&mut self, module_id: u64, item: &ModuleItem, now: i64) -> (r: Result<
        (),
        StorageError,
    >)
        requires
            wf_model(old(self)@),
        ensures
            wf_model(final(self)@),
            r is Ok <==> valid_ts(now) && has_key(old(self)@.modules, module_id),
            r is Ok ==> final(self)@ == (StoreModel {
                module_items: upsert(old(self)@.module_items, module_item_row(module_id, *item, now)),
                ..old(self)@
            }),
            r is Ok ==> rfc3339_secs(rfc3339_of(now)) == Some(now),
            r is Err ==> final(self)@ == old(self)@,
            !valid_ts(now) ==> r == Err::<(), StorageError>(StorageError::TimestampOutOfRange),
            valid_ts(now) && !has_key(old(self)@.modules, module_id) ==> r == Err::<(
            ), StorageError>(StorageError::MissingParent),
    {
        if now < 0 || now > MAX_STORE_TS {
            return Err(StorageError::TimestampOutOfRange);
        }
        let ts = format_rfc3339(now);
        let row = ModuleItemRow {
            id: item.id,
            module_id: module_id,
            position: item.position,
            title: item.title.clone(),
            item_type: item.item_type.clone(),
            content_id: item.content_id,
            last_sync: ts,
        };
        assert(row@ == module_item_row(module_id, *item, now));
        self.upsert_module_item_row(row)
    }

    /// Mark an entity-type name as synchronized at `now`.
    pub fn update_sync_status(&mut self, entity_type: &str, now: i64) -> (r: Result<(
    ), StorageError>)
        requires
            wf_model(old(self)@),
        ensures
            wf_model(final(self)@),
            r is Ok <==> valid_ts(now),
            r is Ok ==> final(self)@ == (StoreModel {
                sync_status: upsert(old(self)@.sync_status, status_row(entity_type@, now)),
                ..old(self)@
            }),
            r is Ok ==> rfc3339_secs(rfc3339_of(now)) == Some(now),
            r is Err ==> final(self)@ == old(self)@ && r == Err::<(), StorageError>(
                StorageError::TimestampOutOfRange,
            ),
    {
        if now < 0 || now > MAX_STORE_TS {
            return Err(StorageError::TimestampOutOfRange);
        }
        let ts = format_rfc3339(now);
        let row = SyncStatusRow { entity_type: str_to_owned(entity_type), last_sync: ts };
        assert(row@ == status_row(entity_type@, now));
        self.upsert_status_row(row);
        Ok(())
    }

    /// Identifiers of the courses whose stored `last_sync` lies strictly
    /// before `now` less `hours` hours; malformed timestamps read as `now`
    /// and are never stale.
    pub fn get_stale_courses(&self, hours: i64, now: i64) -> (r: Vec<u64>)
        requires
            0 <= hours,
        ensures
            r@ == stale_ids(self@.courses, hours, now),
    {
        let mut r: Vec<u64> = Vec::new();
        let n = self.courses.len();
        assert(r@ =~= stale_ids(self@.courses.take(0), hours, now));
        for j in 0..n
            invariant
                n == self.courses.len(),
                r@ == stale_ids(self@.courses.take(j as int), hours, now),
        {
            let row = &self.courses[j];
            let eff: i64 = match parse_rfc3339(row.last_sync.as_str()) {
                Some(t) => t,
                None => now,
            };
            assert(eff == eff_time(self@.courses[j as int].last_sync, now));
            let stale = (eff as i128) < (now as i128) - (hours as i128) * 3600;
            assert(stale == is_stale(self@.courses[j as int], hours, now));
            if stale {
                r.push(row.id);
            }
            proof {
                let pre = self@.courses.take(j as int);
                let post = self@.courses.take(j as int + 1);
                assert(post.drop_last() =~= pre);
                assert(post.last() == self@.courses[j as int]);
                if is_stale(self@.courses[j as int], hours, now) {
                    assert(r@ =~= stale_ids(pre, hours, now) + seq![self@.courses[j as int].key]);
                } else {
                    assert(r@ =~= stale_ids(pre, hours, now) + Seq::<u64>::empty());
                }
            }
        }
        proof {
            assert(self@.courses.take(n as int) =~= self@.courses);
        }
        r
    }

    /// The sync-record listing: each tracked type name with the instant its
    /// stored timestamp denotes, malformed text reading as `now`, in table
    /// order.
    pub fn get_sync_status(&self, now: i64) -> (r: Vec<(String, i64)>)
        ensures
            r@.len() == self@.sync_status.len(),
            forall|i: int|
                0 <= i < r@.len() ==> (#[trigger] r@[i]).0@ == self@.sync_status[i].key && r@[i].1
                    == eff_time(self@.sync_status[i].last_sync, now),
    {
        let mut r: Vec<(String, i64)> = Vec::new();
        let n = self.sync_status.len();
        for j in 0..n
            invariant
                n == self.sync_status.len(),
                r@.len() == j,
                forall|i: int|
                    0 <= i < j ==> (#[trigger] r@[i]).0@ == self@.sync_status[i].key && r@[i].1
                        == eff_time(self@.sync_status[i].last_sync, now),
        {
            let row = &self.sync_status[j];
            let eff: i64 = match parse_rfc3339(row.last_sync.as_str()) {
                Some(t) => t,
                None => now,
            };
            r.push((row.entity_type.clone(), eff));
        }
        r
    }

    /// The courses table as it stands.
    pub fn course_rows(&self) -> (r: &Vec<CourseRow>)
        ensures
            r@.map_values(|x: CourseRow| x@) == self@.courses,
    {
        &self.courses
    }

    /// The assignments table as it stands.
    pub fn assignment_rows(&self) -> (r: &Vec<AssignmentRow>)
        ensures
            r@.map_values(|x: AssignmentRow| x@) == self@.assignments,
    {
        &self.assignments
    }

    /// The discussions table as it stands.
    pub fn discussion_rows(&self) -> (r: &Vec<DiscussionRow>)
        ensures
            r@.map_values(|x: DiscussionRow| x@) == self@.discussions,
    {
        &self.discussions
    }

    /// The modules table as it stands.
    pub fn module_rows(&self) -> (r: &Vec<ModuleRow>)
        ensures
            r@.map_values(|x: ModuleRow| x@) == self@.modules,
    {
        &self.modules
    }

    /// The module-items table as it stands.
    pub fn module_item_rows(&self) -> (r: &Vec<ModuleItemRow>)
        ensures
            r@.map_values(|x: ModuleItemRow| x@) == self@.module_items,
    {
        &self.module_items
    }

    /// The sync-record table as it stands.
    pub fn status_rows(&self) -> (r: &Vec<SyncStatusRow>)
        ensures
            r@.map_values(|x: SyncStatusRow| x@) == self@.sync_status,
    {
        &self.sync_status
    }
}

} // verus!
