//! The synchronization engine: one pass over the remote catalogue, written
//! parent before child, with per-item failures isolated.
//!
//! The engine decides; the caller fetches. [`plan_fetch`] says whether to
//! fetch the full course list or only the stale courses. The fetched data,
//! each batch tagged with its fetch outcome, is handed to [`run_pass`], which
//! writes every course, then that course's assignments, discussions, modules
//! and module items, marks the sync records, and collects every failure
//! instead of aborting. A failed course write skips that course's children;
//! a failed fetch skips exactly its own batch.

use vstd::prelude::*;

use crate::models::{Assignment, Course, Discussion, Module, ModuleItem};
use crate::store::{
    assignment_row, course_row, discussion_row, module_item_row, module_row, stale_ids, status_row,
    wf_model, Database, StorageError, StoreModel,
};
use crate::table::{
    has_key, lemma_upsert, lemma_upsert_all_concat, lemma_upsert_all_one, lemma_upsert_all_push,
    upsert, upsert_all, Row,
};
use crate::timefmt::valid_ts;

verus! {

/// Why a remote fetch failed.
#[derive(Clone, Copy, Debug, PartialEq, Eq, Structural)]
pub enum FetchError {
    /// The remote endpoint could not be reached.
    Transport,
    /// The remote endpoint answered with a non-success status.
    AuthOrStatus,
    /// The response body did not match the expected shape.
    Deserialization,
}

/// What failed during a pass.
#[derive(Clone, Copy, Debug, PartialEq, Eq, Structural)]
pub enum SyncError {
    Storage(StorageError),
    Fetch(FetchError),
}

/// Which kind of entity a failure concerns.
#[derive(Clone, Copy, Debug, PartialEq, Eq, Structural)]
pub enum EntityKind {
    Course,
    Assignment,
    Discussion,
    Module,
    ModuleItem,
}

/// One reported failure: the kind of batch or row, the identifier of the
/// entity it was for (the parent's, for a failed batch fetch), and the error.
#[derive(Clone, Copy, Debug, PartialEq, Eq, Structural)]
pub struct SyncFailure {
    pub kind: EntityKind,
    pub id: u64,
    pub error: SyncError,
}

/// One module as fetched, with the outcome of fetching its items.
#[derive(Debug)]
pub struct ModuleInput {
    pub module: Module,
    pub items: Result<Vec<ModuleItem>, FetchError>,
}

/// One course as fetched, with the outcomes of fetching its child batches.
#[derive(Debug)]
pub struct CourseInput {
    pub course: Course,
    pub assignments: Result<Vec<Assignment>, FetchError>,
    pub discussions: Result<Vec<Discussion>, FetchError>,
    pub modules: Result<Vec<ModuleInput>, FetchError>,
}

/// What a pass reports: every per-item failure in order, and the sync-record
/// listing read back at the end.
#[derive(Debug)]
pub struct SyncReport {
    pub failures: Vec<SyncFailure>,
    pub status: Vec<(String, i64)>,
}

/// What to fetch: the whole catalogue, or the stale courses by identifier.
#[derive(Debug)]
pub enum FetchPlan {
    All,
    Stale(Vec<u64>),
}

/// The courses rows a pass writes, one per input in order.
pub open spec fn course_writes(ins: Seq<CourseInput>, now: i64) -> Seq<Row<u64>>
    decreases ins.len(),
{
    if ins.len() == 0 {
        Seq::empty()
    } else {
        course_writes(ins.drop_last(), now).push(course_row(ins.last().course, now))
    }
}

/// The assignments rows one fetched list yields.
pub open spec fn asg_rows(course_id: u64, list: Seq<Assignment>, now: i64) -> Seq<Row<u64>>
    decreases list.len(),
{
    if list.len() == 0 {
        Seq::empty()
    } else {
        asg_rows(course_id, list.drop_last(), now).push(
            assignment_row(course_id, list.last(), now),
        )
    }
}

/// The assignments rows one course contributes: its batch if the fetch
/// succeeded, nothing otherwise.
pub open spec fn course_asg_writes(ci: CourseInput, now: i64) -> Seq<Row<u64>> {
    match ci.assignments {
        Ok(list) => asg_rows(ci.course.id, list@, now),
        Err(_) => Seq::empty(),
    }
}

/// The assignments rows a pass writes.
pub open spec fn assignment_writes(ins: Seq<CourseInput>, now: i64) -> Seq<Row<u64>>
    decreases ins.len(),
{
    if ins.len() == 0 {
        Seq::empty()
    } else {
        assignment_writes(ins.drop_last(), now) + course_asg_writes(ins.last(), now)
    }
}

/// The discussions rows one fetched list yields.
pub open spec fn disc_rows(course_id: u64, list: Seq<Discussion>, now: i64) -> Seq<Row<u64>>
    decreases list.len(),
{
    if list.len() == 0 {
        Seq::empty()
    } else {
        disc_rows(course_id, list.drop_last(), now).push(
            discussion_row(course_id, list.last(), now),
        )
    }
}

/// The discussions rows one course contributes.
pub open spec fn course_disc_writes(ci: CourseInput, now: i64) -> Seq<Row<u64>> {
    match ci.discussions {
        Ok(list) => disc_rows(ci.course.id, list@, now),
        Err(_) => Seq::empty(),
    }
}

/// The discussions rows a pass writes.
pub open spec fn discussion_writes(ins: Seq<CourseInput>, now: i64) -> Seq<Row<u64>>
    decreases ins.len(),
{
    if ins.len() == 0 {
        Seq::empty()
    } else {
        discussion_writes(ins.drop_last(), now) + course_disc_writes(ins.last(), now)
    }
}

/// The modules rows one fetched list yields.
pub open spec fn mod_rows(course_id: u64, list: Seq<ModuleInput>, now: i64) -> Seq<Row<u64>>
    decreases list.len(),
{
    if list.len() == 0 {
        Seq::empty()
    } else {
        mod_rows(course_id, list.drop_last(), now).push(
            module_row(course_id, list.last().module, now),
        )
    }
}

/// The modules rows one course contributes.
pub open spec fn course_mod_writes(ci: CourseInput, now: i64) -> Seq<Row<u64>> {
    match ci.modules {
        Ok(list) => mod_rows(ci.course.id, list@, now),
        Err(_) => Seq::empty(),
    }
}

/// The modules rows a pass writes.
pub open spec fn module_writes(ins: Seq<CourseInput>, now: i64) -> Seq<Row<u64>>
    decreases ins.len(),
{
    if ins.len() == 0 {
        Seq::empty()
    } else {
        module_writes(ins.drop_last(), now) + course_mod_writes(ins.last(), now)
    }
}

/// The module-items rows one fetched item list yields.
pub open spec fn item_rows(module_id: u64, list: Seq<ModuleItem>, now: i64) -> Seq<Row<u64>>
    decreases list.len(),
{
    if list.len() == 0 {
        Seq::empty()
    } else {
        item_rows(module_id, list.drop_last(), now).push(
            module_item_row(module_id, list.last(), now),
        )
    }
}

/// The module-items rows one module contributes: its items if that fetch
/// succeeded; a module whose item fetch failed contributes nothing.
pub open spec fn mi_item_writes(mi: ModuleInput, now: i64) -> Seq<Row<u64>> {
    match mi.items {
        Ok(list) => item_rows(mi.module.id, list@, now),
        Err(_) => Seq::empty(),
    }
}

/// The module-items rows a course's module list contributes.
pub open spec fn items_of_modules(list: Seq<ModuleInput>, now: i64) -> Seq<Row<u64>>
    decreases list.len(),
{
    if list.len() == 0 {
        Seq::empty()
    } else {
        items_of_modules(list.drop_last(), now) + mi_item_writes(list.last(), now)
    }
}

/// The module-items rows one course contributes.
pub open spec fn course_item_writes(ci: CourseInput, now: i64) -> Seq<Row<u64>> {
    match ci.modules {
        Ok(list) => items_of_modules(list@, now),
        Err(_) => Seq::empty(),
    }
}

/// The module-items rows a pass writes.
pub open spec fn module_item_writes(ins: Seq<CourseInput>, now: i64) -> Seq<Row<u64>>
    decreases ins.len(),
{
    if ins.len() == 0 {
        Seq::empty()
    } else {
        module_item_writes(ins.drop_last(), now) + course_item_writes(ins.last(), now)
    }
}

/// One sync-record mark, or nothing.
pub open spec fn opt_mark(on: bool, name: Seq<char>, now: i64) -> Seq<Row<Seq<char>>> {
    if on {
        seq![status_row(name, now)]
    } else {
        Seq::empty()
    }
}

/// The per-module "module_items" marks of a course's module list: one for
/// each module whose item batch was fetched.
pub open spec fn item_marks(list: Seq<ModuleInput>, now: i64) -> Seq<Row<Seq<char>>>
    decreases list.len(),
{
    if list.len() == 0 {
        Seq::empty()
    } else {
        item_marks(list.drop_last(), now) + opt_mark(
            list.last().items is Ok,
            "module_items"@,
            now,
        )
    }
}

/// The sync-record marks one course contributes: one per child type whose
/// batch was fetched, the per-module item marks before the modules mark.
pub open spec fn course_status_writes(ci: CourseInput, now: i64) -> Seq<Row<Seq<char>>> {
    opt_mark(ci.assignments is Ok, "assignments"@, now) + opt_mark(
        ci.discussions is Ok,
        "discussions"@,
        now,
    ) + (match ci.modules {
        Ok(list) => item_marks(list@, now),
        Err(_) => Seq::empty(),
    }) + opt_mark(ci.modules is Ok, "modules"@, now)
}

/// The sync-record marks a pass writes.
pub open spec fn status_writes(ins: Seq<CourseInput>, now: i64) -> Seq<Row<Seq<char>>>
    decreases ins.len(),
{
    if ins.len() == 0 {
        Seq::empty()
    } else {
        status_writes(ins.drop_last(), now) + course_status_writes(ins.last(), now)
    }
}

/// The per-module item-fetch failures of a course's module list, in order.
pub open spec fn item_fetch_failures(list: Seq<ModuleInput>) -> Seq<SyncFailure>
    decreases list.len(),
{
    if list.len() == 0 {
        Seq::empty()
    } else {
        item_fetch_failures(list.drop_last()) + (match list.last().items {
            Ok(_) => Seq::empty(),
            Err(e) => seq![
                SyncFailure {
                    kind: EntityKind::ModuleItem,
                    id: list.last().module.id,
                    error: SyncError::Fetch(e),
                },
            ],
        })
    }
}

/// The failures one course contributes: its own write failure and nothing
/// else when the store refuses the course, otherwise one failure per failed
/// child fetch.
pub open spec fn course_failures(ci: CourseInput, now: i64) -> Seq<SyncFailure> {
    if !valid_ts(now) {
        seq![
            SyncFailure {
                kind: EntityKind::Course,
                id: ci.course.id,
                error: SyncError::Storage(StorageError::TimestampOutOfRange),
            },
        ]
    } else {
        (match ci.assignments {
            Ok(_) => Seq::empty(),
            Err(e) => seq![
                SyncFailure {
                    kind: EntityKind::Assignment,
                    id: ci.course.id,
                    error: SyncError::Fetch(e),
                },
            ],
        }) + (match ci.discussions {
            Ok(_) => Seq::empty(),
            Err(e) => seq![
                SyncFailure {
                    kind: EntityKind::Discussion,
                    id: ci.course.id,
                    error: SyncError::Fetch(e),
                },
            ],
        }) + (match ci.modules {
            Ok(list) => item_fetch_failures(list@),
            Err(e) => seq![
                SyncFailure { kind: EntityKind::Module, id: ci.course.id, error: SyncError::Fetch(e) },
            ],
        })
    }
}

/// The failures a pass reports, course by course.
pub open spec fn pass_failures(ins: Seq<CourseInput>, now: i64) -> Seq<SyncFailure>
    decreases ins.len(),
{
    if ins.len() == 0 {
        Seq::empty()
    } else {
        pass_failures(ins.drop_last(), now) + course_failures(ins.last(), now)
    }
}

/// What one course's processing does to the store: nothing when the course
/// write is refused, otherwise the course row and the fetched child batches.
pub open spec fn apply_course(m: StoreModel, ci: CourseInput, now: i64) -> StoreModel {
    if !valid_ts(now) {
        m
    } else {
        StoreModel {
            courses: upsert(m.courses, course_row(ci.course, now)),
            assignments: upsert_all(m.assignments, course_asg_writes(ci, now)),
            discussions: upsert_all(m.discussions, course_disc_writes(ci, now)),
            modules: upsert_all(m.modules, course_mod_writes(ci, now)),
            module_items: upsert_all(m.module_items, course_item_writes(ci, now)),
            sync_status: upsert_all(m.sync_status, course_status_writes(ci, now)),
        }
    }
}

/// What a whole pass does to the store.
pub open spec fn pass_result(m: StoreModel, ins: Seq<CourseInput>, now: i64) -> StoreModel {
    if !valid_ts(now) {
        m
    } else {
        StoreModel {
            courses: upsert_all(m.courses, course_writes(ins, now)),
            assignments: upsert_all(m.assignments, assignment_writes(ins, now)),
            discussions: upsert_all(m.discussions, discussion_writes(ins, now)),
            modules: upsert_all(m.modules, module_writes(ins, now)),
            module_items: upsert_all(m.module_items, module_item_writes(ins, now)),
            sync_status: upsert_all(m.sync_status, status_writes(ins, now)),
        }
    }
}

/// Processing one more course extends the pass.
proof fn lemma_pass_step(m: StoreModel, ins: Seq<CourseInput>, ci: CourseInput, now: i64)
    ensures
        pass_result(m, ins.push(ci), now) == apply_course(pass_result(m, ins, now), ci, now),
{
    if valid_ts(now) {
        let e = ins.push(ci);
        assert(e.drop_last() =~= ins);
        assert(e.last() == ci);
        lemma_upsert_all_concat(
            m.assignments,
            assignment_writes(ins, now),
            course_asg_writes(ci, now),
        );
        lemma_upsert_all_concat(
            m.discussions,
            discussion_writes(ins, now),
            course_disc_writes(ci, now),
        );
        lemma_upsert_all_concat(
            m.modules,
            module_writes(ins, now),
            course_mod_writes(ci, now),
        );
        lemma_upsert_all_concat(
            m.module_items,
            module_item_writes(ins, now),
            course_item_writes(ci, now),
        );
        lemma_upsert_all_concat(
            m.sync_status,
            status_writes(ins, now),
            course_status_writes(ci, now),
        );
        lemma_upsert_all_push(m.courses, course_writes(ins, now), course_row(ci.course, now));
        assert(course_writes(e, now) == course_writes(ins, now).push(course_row(ci.course, now)));
        assert(pass_result(m, e, now) =~= apply_course(pass_result(m, ins, now), ci, now));
    }
}

/// Decide what to fetch: the stale courses if any are tracked and stale, the
/// full course list otherwise — in particular on a first run against an
/// untouched store.
pub fn plan_fetch(db: &Database, hours: i64, now: i64) -> (p: FetchPlan)
    requires
        0 <= hours,
    ensures
        stale_ids(db@.courses, hours, now).len() == 0 ==> p is All,
        stale_ids(db@.courses, hours, now).len() > 0 ==> (p matches FetchPlan::Stale(v) && v@
            == stale_ids(db@.courses, hours, now)),
{
    let ids = db.get_stale_courses(hours, now);
    if ids.len() == 0 {
        FetchPlan::All
    } else {
        FetchPlan::Stale(ids)
    }
}

/// Process one fetched course: write the course row; if the store refuses
/// it, report that and touch nothing else; otherwise write each fetched
/// child batch, isolating failures, and mark the sync records.
pub fn process_course(
    db: &mut Database,
    failures: &mut Vec<SyncFailure>,
    input: &CourseInput,
    now: i64,
)
    requires
        wf_model(old(db)@),
    ensures
        wf_model(final(db)@),
        final(db)@ == apply_course(old(db)@, *input, now),
        final(failures)@ == old(failures)@ + course_failures(*input, now),
{
    let ghost m0 = db@;
    let ghost f0 = failures@;
    match db.sync_course(&input.course, now) {
        Err(e) => {
            failures.push(
                SyncFailure {
                    kind: EntityKind::Course,
                    id: input.course.id,
                    error: SyncError::Storage(e),
                },
            );
            proof {
                assert(failures@ =~= f0 + course_failures(*input, now));
            }
            return ;
        },
        Ok(_) => {},
    }
    let ghost m1 = db@;
    assert(valid_ts(now));
    assert(m1 == (StoreModel { courses: upsert(m0.courses, course_row(input.course, now)), ..m0 }));
    assert(has_key(m1.courses, input.course.id)) by {
        lemma_upsert(m0.courses, course_row(input.course, now));
    }

    // Assignments: write the batch if it was fetched, then mark it.
    match &input.assignments {
        Ok(list) => {
            let n = list.len();
            for j in 0..n
                invariant
                    n == list.len(),
                    wf_model(db@),
                    valid_ts(now),
                    has_key(db@.courses, input.course.id),
                    db@ == (StoreModel {
                        assignments: upsert_all(
                            m1.assignments,
                            asg_rows(input.course.id, list@.take(j as int), now),
                        ),
                        ..m1
                    }),
            {
                let r = db.sync_assignment(input.course.id, &list[j], now);
                proof {
                    assert(r is Ok);
                    let pre = list@.take(j as int);
                    let post = list@.take(j as int + 1);
                    assert(post.drop_last() =~= pre);
                    assert(post.last() == list@[j as int]);
                    lemma_upsert_all_push(
                        m1.assignments,
                        asg_rows(input.course.id, pre, now),
                        assignment_row(input.course.id, list@[j as int], now),
                    );
                }
            }
            proof {
                assert(list@.take(n as int) =~= list@);
            }
            let r = db.update_sync_status("assignments", now);
            proof {
                assert(r is Ok);
                lemma_upsert_all_one(m1.sync_status, status_row("assignments"@, now));
            }
        },
        Err(e) => {
            failures.push(
                SyncFailure {
                    kind: EntityKind::Assignment,
                    id: input.course.id,
                    error: SyncError::Fetch(*e),
                },
            );
        },
    }
    let ghost m2 = db@;
    assert(m2 == (StoreModel {
        assignments: upsert_all(m1.assignments, course_asg_writes(*input, now)),
        sync_status: upsert_all(
            m1.sync_status,
            opt_mark(input.assignments is Ok, "assignments"@, now),
        ),
        ..m1
    }));

    // Discussions: write the batch if it was fetched, then mark it.
    match &input.discussions {
        Ok(list) => {
            let n = list.len();
            for j in 0..n
                invariant
                    n == list.len(),
                    wf_model(db@),
                    valid_ts(now),
                    has_key(db@.courses, input.course.id),
                    db@ == (StoreModel {
                        discussions: upsert_all(
                            m2.discussions,
                            disc_rows(input.course.id, list@.take(j as int), now),
                        ),
                        ..m2
                    }),
            {
                let r = db.sync_discussion(input.course.id, &list[j], now);
                proof {
                    assert(r is Ok);
                    let pre = list@.take(j as int);
                    let post = list@.take(j as int + 1);
                    assert(post.drop_last() =~= pre);
                    assert(post.last() == list@[j as int]);
                    lemma_upsert_all_push(
                        m2.discussions,
                        disc_rows(input.course.id, pre, now),
                        discussion_row(input.course.id, list@[j as int], now),
                    );
                }
            }
            proof {
                assert(list@.take(n as int) =~= list@);
            }
            let r = db.update_sync_status("discussions", now);
            proof {
                assert(r is Ok);
                lemma_upsert_all_one(m2.sync_status, status_row("discussions"@, now));
            }
        },
        Err(e) => {
            failures.push(
                SyncFailure {
                    kind: EntityKind::Discussion,
                    id: input.course.id,
                    error: SyncError::Fetch(*e),
                },
            );
        },
    }
    let ghost m3 = db@;
    let ghost f3 = failures@;
    assert(m3 == (StoreModel {
        discussions: upsert_all(m2.discussions, course_disc_writes(*input, now)),
        sync_status: upsert_all(
            m2.sync_status,
            opt_mark(input.discussions is Ok, "discussions"@, now),
        ),
        ..m2
    }));

    // Modules: write each module, then its items if they were fetched, with
    // a "module_items" mark per fetched item batch and a "modules" mark
    // after the whole batch.
    match &input.modules {
        Ok(list) => {
            let n = list.len();
            for j in 0..n
                invariant
                    n == list.len(),
                    wf_model(db@),
                    valid_ts(now),
                    has_key(db@.courses, input.course.id),
                    db@ == (StoreModel {
                        modules: upsert_all(
                            m3.modules,
                            mod_rows(input.course.id, list@.take(j as int), now),
                        ),
                        module_items: upsert_all(
                            m3.module_items,
                            items_of_modules(list@.take(j as int), now),
                        ),
                        sync_status: upsert_all(
                            m3.sync_status,
                            item_marks(list@.take(j as int), now),
                        ),
                        ..m3
                    }),
                    failures@ == f3 + item_fetch_failures(list@.take(j as int)),
            {
                let ghost mj = db@;
                let mi = &list[j];
                let r = db.sync_module(input.course.id, &mi.module, now);
                proof {
                    assert(r is Ok);
                    lemma_upsert(mj.modules, module_row(input.course.id, mi.module, now));
                    lemma_upsert_all_push(
                        m3.modules,
                        mod_rows(input.course.id, list@.take(j as int), now),
                        module_row(input.course.id, mi.module, now),
                    );
                }
                match &mi.items {
                    Ok(items) => {
                        let ghost mk0 = db@;
                        let kn = items.len();
                        for k in 0..kn
                            invariant
                                kn == items.len(),
                                wf_model(db@),
                                valid_ts(now),
                                has_key(db@.modules, mi.module.id),
                                db@ == (StoreModel {
                                    module_items: upsert_all(
                                        mk0.module_items,
                                        item_rows(mi.module.id, items@.take(k as int), now),
                                    ),
                                    ..mk0
                                }),
                        {
                            let r2 = db.sync_module_item(mi.module.id, &items[k], now);
                            proof {
                                assert(r2 is Ok);
                                let pre = items@.take(k as int);
                                let post = items@.take(k as int + 1);
                                assert(post.drop_last() =~= pre);
                                assert(post.last() == items@[k as int]);
                                lemma_upsert_all_push(
                                    mk0.module_items,
                                    item_rows(mi.module.id, pre, now),
                                    module_item_row(mi.module.id, items@[k as int], now),
                                );
                            }
                        }
                        proof {
                            assert(items@.take(kn as int) =~= items@);
                        }
                        let r2 = db.update_sync_status("module_items", now);
                        proof {
                            assert(r2 is Ok);
                            lemma_upsert_all_one(mk0.sync_status, status_row("module_items"@, now));
                        }
                    },
                    Err(e) => {
                        failures.push(
                            SyncFailure {
                                kind: EntityKind::ModuleItem,
                                id: mi.module.id,
                                error: SyncError::Fetch(*e),
                            },
                        );
                    },
                }
                proof {
                    let pre = list@.take(j as int);
                    let post = list@.take(j as int + 1);
                    assert(post.drop_last() =~= pre);
                    assert(post.last() == list@[j as int]);
                    lemma_upsert_all_concat(
                        m3.module_items,
                        items_of_modules(pre, now),
                        mi_item_writes(list@[j as int], now),
                    );
                    lemma_upsert_all_concat(
                        m3.sync_status,
                        item_marks(pre, now),
                        opt_mark(list@[j as int].items is Ok, "module_items"@, now),
                    );
                    assert(failures@ =~= f3 + item_fetch_failures(post));
                }
            }
            proof {
                assert(list@.take(n as int) =~= list@);
            }
            let r = db.update_sync_status("modules", now);
            proof {
                assert(r is Ok);
                lemma_upsert_all_concat(
                    m3.sync_status,
                    item_marks(list@, now),
                    opt_mark(true, "modules"@, now),
                );
                lemma_upsert_all_one(
                    upsert_all(m3.sync_status, item_marks(list@, now)),
                    status_row("modules"@, now),
                );
                assert(opt_mark(true, "modules"@, now) =~= seq![status_row("modules"@, now)]);
            }
        },
        Err(e) => {
            failures.push(
                SyncFailure {
                    kind: EntityKind::Module,
                    id: input.course.id,
                    error: SyncError::Fetch(*e),
                },
            );
        },
    }
    proof {
        assert(db@ =~= apply_course(m0, *input, now)) by {
            lemma_upsert_all_concat(
                m1.sync_status,
                opt_mark(input.assignments is Ok, "assignments"@, now),
                opt_mark(input.discussions is Ok, "discussions"@, now),
            );
            let sm2 = opt_mark(input.assignments is Ok, "assignments"@, now) + opt_mark(
                input.discussions is Ok,
                "discussions"@,
                now,
            );
            let sm3 = match input.modules {
                Ok(list) => item_marks(list@, now),
                Err(_) => Seq::empty(),
            };
            lemma_upsert_all_concat(m1.sync_status, sm2, sm3);
            lemma_upsert_all_concat(
                m1.sync_status,
                sm2 + sm3,
                opt_mark(input.modules is Ok, "modules"@, now),
            );
            assert(course_status_writes(*input, now) =~= sm2 + sm3 + opt_mark(
                input.modules is Ok,
                "modules"@,
                now,
            ));
        }
        assert(failures@ =~= f0 + course_failures(*input, now));
    }
}

/// Run one whole pass: process every fetched course in order, then read the
/// sync-record listing back for the report.
pub fn run_pass(db: &mut Database, inputs: &Vec<CourseInput>, now: i64) -> (report: SyncReport)
    requires
        wf_model(old(db)@),
    ensures
        wf_model(final(db)@),
        final(db)@ == pass_result(old(db)@, inputs@, now),
        report.failures@ == pass_failures(inputs@, now),
        report.status@.len() == final(db)@.sync_status.len(),
        forall|i: int|
            0 <= i < report.status@.len() ==> (#[trigger] report.status@[i]).0@
                == final(db)@.sync_status[i].key && report.status@[i].1 == crate::timefmt::eff_time(
                final(db)@.sync_status[i].last_sync,
                now,
            ),
{
    let ghost m0 = db@;
    let mut failures: Vec<SyncFailure> = Vec::new();
    let n = inputs.len();
    proof {
        assert(inputs@.take(0) =~= Seq::<CourseInput>::empty());
        assert(failures@ =~= pass_failures(inputs@.take(0), now));
        if valid_ts(now) {
            assert(db@ =~= pass_result(m0, inputs@.take(0), now));
        }
    }
    for i in 0..n
        invariant
            n == inputs.len(),
            wf_model(db@),
            db@ == pass_result(m0, inputs@.take(i as int), now),
            failures@ == pass_failures(inputs@.take(i as int), now),
    {
        process_course(db, &mut failures, &inputs[i], now);
        proof {
            let pre = inputs@.take(i as int);
            let post = inputs@.take(i as int + 1);
            assert(post.drop_last() =~= pre);
            assert(post.last() == inputs@[i as int]);
            assert(post =~= pre.push(inputs@[i as int]));
            lemma_pass_step(m0, pre, inputs@[i as int], now);
        }
    }
    proof {
        assert(inputs@.take(n as int) =~= inputs@);
    }
    let status = db.get_sync_status(now);
    SyncReport { failures, status }
}

} // verus!
