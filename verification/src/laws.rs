//! The store's and the engine's laws, stated over the models and proved for
//! all inputs.

use vstd::prelude::*;

use crate::engine::{
    asg_rows, assignment_writes, course_asg_writes, course_disc_writes, course_item_writes,
    course_mod_writes, course_status_writes, course_writes, disc_rows, discussion_writes,
    item_marks, item_rows, items_of_modules, mi_item_writes, mod_rows, module_item_writes,
    module_writes, opt_mark, pass_result, status_writes, CourseInput, ModuleInput,
};
use crate::models::{Assignment, Discussion, ModuleItem};
use crate::store::{
    assignment_row, course_row, discussion_row, is_stale, module_item_row, module_row, stale_ids,
    wf_model, StoreModel,
};
use crate::table::{
    has_key, key_count, last_write, lemma_idx_of_self, lemma_key_count_unique, lemma_last_write_in,
    lemma_scrub_concat, lemma_upsert, lemma_upsert_all, lemma_upsert_all_again, row_at, scrub,
    unique_keys, upsert, writes_key, Row,
};
use crate::timefmt::{eff_time, rfc3339_of, rfc3339_secs, valid_ts};

verus! {

/// A whole store with every `last_sync` stamp blanked.
pub open spec fn scrub_model(m: StoreModel) -> StoreModel {
    StoreModel {
        courses: scrub(m.courses),
        assignments: scrub(m.assignments),
        discussions: scrub(m.discussions),
        modules: scrub(m.modules),
        module_items: scrub(m.module_items),
        sync_status: scrub(m.sync_status),
    }
}

/// Writing an identifier twice leaves exactly one row for it, holding the
/// second write's values; the second write adds no row.
pub proof fn lemma_overwrite_keeps_one_row<K>(s: Seq<Row<K>>, r1: Row<K>, r2: Row<K>)
    requires
        unique_keys(s),
        r1.key == r2.key,
    ensures
        key_count(upsert(upsert(s, r1), r2), r2.key) == 1,
        row_at(upsert(upsert(s, r1), r2), r2.key) == r2,
        upsert(upsert(s, r1), r2).len() == upsert(s, r1).len(),
{
    lemma_upsert(s, r1);
    lemma_upsert(upsert(s, r1), r2);
    lemma_key_count_unique(upsert(upsert(s, r1), r2), r2.key);
}

/// The stale listing holds an identifier exactly when some courses row
/// carries it and counts as stale.
pub proof fn lemma_stale_ids_membership(s: Seq<Row<u64>>, hours: i64, now: i64, id: u64)
    ensures
        stale_ids(s, hours, now).contains(id) <==> exists|i: int|
            0 <= i < s.len() && s[i].key == id && is_stale(#[trigger] s[i], hours, now),
    decreases s.len(),
{
    if s.len() > 0 {
        let d = s.drop_last();
        lemma_stale_ids_membership(d, hours, now, id);
        let tail: Seq<u64> = if is_stale(s.last(), hours, now) {
            seq![s.last().key]
        } else {
            Seq::empty()
        };
        assert(stale_ids(s, hours, now) == stale_ids(d, hours, now) + tail);
        if stale_ids(s, hours, now).contains(id) {
            let j = choose|j: int|
                0 <= j < stale_ids(s, hours, now).len() && stale_ids(s, hours, now)[j] == id;
            if j < stale_ids(d, hours, now).len() {
                assert(stale_ids(d, hours, now)[j] == id);
                let i = choose|i: int|
                    0 <= i < d.len() && d[i].key == id && is_stale(#[trigger] d[i], hours, now);
                assert(s[i] == d[i]);
            } else {
                assert(tail[j - stale_ids(d, hours, now).len()] == id);
                assert(is_stale(s[s.len() - 1], hours, now) && s[s.len() - 1].key == id);
            }
        }
        if exists|i: int|
            0 <= i < s.len() && s[i].key == id && is_stale(#[trigger] s[i], hours, now) {
            let i = choose|i: int|
                0 <= i < s.len() && s[i].key == id && is_stale(#[trigger] s[i], hours, now);
            if i < s.len() - 1 {
                assert(d[i] == s[i]);
                assert(stale_ids(d, hours, now).contains(id));
                let j = choose|j: int|
                    0 <= j < stale_ids(d, hours, now).len() && stale_ids(d, hours, now)[j] == id;
                assert(stale_ids(s, hours, now)[j] == id);
            } else {
                assert(s.last().key == id && is_stale(s.last(), hours, now));
                assert(stale_ids(s, hours, now)[stale_ids(d, hours, now).len() as int] == id);
            }
        }
    }
}

/// A course row whose stored timestamp reads back as `now` is not stale at
/// `now` under any nonnegative threshold: freshly written means not listed.
pub proof fn lemma_fresh_row_not_stale(s: Seq<Row<u64>>, r: Row<u64>, hours: i64, now: i64)
    requires
        unique_keys(s),
        rfc3339_secs(r.last_sync) == Some(now),
        0 <= hours,
    ensures
        !stale_ids(upsert(s, r), hours, now).contains(r.key),
{
    let t = upsert(s, r);
    lemma_upsert(s, r);
    lemma_stale_ids_membership(t, hours, now, r.key);
    if stale_ids(t, hours, now).contains(r.key) {
        let i = choose|i: int|
            0 <= i < t.len() && t[i].key == r.key && is_stale(#[trigger] t[i], hours, now);
        lemma_idx_of_self(t, i);
        assert(t[i] == row_at(t, r.key));
        assert(t[i] == r);
        assert(eff_time(r.last_sync, now) == now);
        assert(now < now - hours * 3600);
        assert(hours * 3600 >= 0);
        assert(false);
    }
}

/// An untouched store lists nothing as stale, under any threshold at all:
/// planning a pass over it therefore falls back to the full course list.
pub proof fn lemma_empty_store_has_no_stale(s: Seq<Row<u64>>, hours: i64, now: i64)
    requires
        s.len() == 0,
    ensures
        stale_ids(s, hours, now).len() == 0,
{
}

/// When the store refuses the course writes themselves, a pass writes
/// nothing at all: in particular no child row appears without its parent.
pub proof fn lemma_refused_courses_write_nothing(m: StoreModel, ins: Seq<CourseInput>, now: i64)
    requires
        !valid_ts(now),
    ensures
        pass_result(m, ins, now) == m,
{
}

/// The per-input course rows, one per input, in order.
proof fn lemma_course_writes_pointwise(ins: Seq<CourseInput>, now: i64)
    ensures
        course_writes(ins, now).len() == ins.len(),
        forall|i: int|
            0 <= i < ins.len() ==> course_writes(ins, now)[i] == course_row(
                (#[trigger] ins[i]).course,
                now,
            ),
    decreases ins.len(),
{
    if ins.len() > 0 {
        lemma_course_writes_pointwise(ins.drop_last(), now);
        assert(forall|i: int| 0 <= i < ins.len() - 1 ==> ins.drop_last()[i] == ins[i]);
    }
}

/// Every fetched course's row stands in the pass's result, stamped with the
/// pass's own time.
pub proof fn lemma_pass_writes_courses(m: StoreModel, ins: Seq<CourseInput>, now: i64, i: int)
    requires
        unique_keys(m.courses),
        valid_ts(now),
        0 <= i < ins.len(),
    ensures
        has_key(pass_result(m, ins, now).courses, ins[i].course.id),
        row_at(pass_result(m, ins, now).courses, ins[i].course.id).last_sync == rfc3339_of(now),
{
    let ws = course_writes(ins, now);
    let id = ins[i].course.id;
    lemma_course_writes_pointwise(ins, now);
    assert(ws[i].key == id);
    assert(writes_key(ws, id));
    lemma_upsert_all(m.courses, ws);
    lemma_last_write_in(ws, id);
    let j = choose|j: int| 0 <= j < ws.len() && ws[j] == last_write(ws, id);
    assert(ws[j] == course_row(ins[j].course, now));
}

/// Every write of a discussion batch carries the pass's stamp.
proof fn lemma_discussion_writes_stamped(ins: Seq<CourseInput>, now: i64)
    ensures
        forall|k: int|
            0 <= k < discussion_writes(ins, now).len() ==> (#[trigger] discussion_writes(
                ins,
                now,
            )[k]).last_sync == rfc3339_of(now),
    decreases ins.len(),
{
    if ins.len() > 0 {
        lemma_discussion_writes_stamped(ins.drop_last(), now);
        match ins.last().discussions {
            Ok(v) => {
                lemma_disc_rows_pointwise(ins.last().course.id, v@, now);
            },
            Err(_) => {},
        }
        let prev = discussion_writes(ins.drop_last(), now);
        let cur = course_disc_writes(ins.last(), now);
        assert forall|k: int| 0 <= k < discussion_writes(ins, now).len() implies (#[trigger] discussion_writes(
            ins,
            now,
        )[k]).last_sync == rfc3339_of(now) by {
            if k < prev.len() {
                assert(discussion_writes(ins, now)[k] == prev[k]);
                assert(prev[k].last_sync == rfc3339_of(now));
            } else {
                assert(discussion_writes(ins, now)[k] == cur[k - prev.len()]);
                match ins.last().discussions {
                    Ok(v) => {
                        assert(cur[k - prev.len()] == discussion_row(
                            ins.last().course.id,
                            v@[k - prev.len()],
                            now,
                        ));
                    },
                    Err(_) => {},
                }
            }
        }
    }
}

/// Every write of a module batch carries the pass's stamp.
proof fn lemma_module_writes_stamped(ins: Seq<CourseInput>, now: i64)
    ensures
        forall|k: int|
            0 <= k < module_writes(ins, now).len() ==> (#[trigger] module_writes(ins, now)[k]).last_sync
                == rfc3339_of(now),
    decreases ins.len(),
{
    if ins.len() > 0 {
        lemma_module_writes_stamped(ins.drop_last(), now);
        match ins.last().modules {
            Ok(v) => {
                lemma_mod_rows_pointwise(ins.last().course.id, v@, now);
            },
            Err(_) => {},
        }
        let prev = module_writes(ins.drop_last(), now);
        let cur = course_mod_writes(ins.last(), now);
        assert forall|k: int| 0 <= k < module_writes(ins, now).len() implies (#[trigger] module_writes(
            ins,
            now,
        )[k]).last_sync == rfc3339_of(now) by {
            if k < prev.len() {
                assert(module_writes(ins, now)[k] == prev[k]);
                assert(prev[k].last_sync == rfc3339_of(now));
            } else {
                assert(module_writes(ins, now)[k] == cur[k - prev.len()]);
                match ins.last().modules {
                    Ok(v) => {
                        assert(cur[k - prev.len()] == module_row(
                            ins.last().course.id,
                            v@[k - prev.len()].module,
                            now,
                        ));
                    },
                    Err(_) => {},
                }
            }
        }
    }
}

/// A discussion of course `i`'s fetched batch is among the pass's writes.
proof fn lemma_discussion_writes_member(ins: Seq<CourseInput>, now: i64, i: int, j: int, id: u64)
    requires
        0 <= i < ins.len(),
        ins[i].discussions matches Ok(v) && 0 <= j < v@.len() && v@[j].id == id,
    ensures
        writes_key(discussion_writes(ins, now), id),
    decreases ins.len(),
{
    let d = ins.drop_last();
    if i == ins.len() - 1 {
        match ins.last().discussions {
            Ok(v) => {
                lemma_disc_rows_pointwise(ins.last().course.id, v@, now);
                let w = discussion_writes(ins, now);
                let off = discussion_writes(d, now).len();
                assert(w[off + j] == disc_rows(ins.last().course.id, v@, now)[j]);
                assert(w[off + j].key == id);
            },
            Err(_) => {},
        }
    } else {
        assert(d[i] == ins[i]);
        lemma_discussion_writes_member(d, now, i, j, id);
        let k = choose|k: int|
            0 <= k < discussion_writes(d, now).len() && discussion_writes(d, now)[k].key == id;
        assert(discussion_writes(ins, now)[k].key == id);
    }
}

/// A module of course `i`'s fetched batch is among the pass's writes.
proof fn lemma_module_writes_member(ins: Seq<CourseInput>, now: i64, i: int, j: int, id: u64)
    requires
        0 <= i < ins.len(),
        ins[i].modules matches Ok(v) && 0 <= j < v@.len() && v@[j].module.id == id,
    ensures
        writes_key(module_writes(ins, now), id),
    decreases ins.len(),
{
    let d = ins.drop_last();
    if i == ins.len() - 1 {
        match ins.last().modules {
            Ok(v) => {
                lemma_mod_rows_pointwise(ins.last().course.id, v@, now);
                let w = module_writes(ins, now);
                let off = module_writes(d, now).len();
                assert(w[off + j] == mod_rows(ins.last().course.id, v@, now)[j]);
                assert(w[off + j].key == id);
            },
            Err(_) => {},
        }
    } else {
        assert(d[i] == ins[i]);
        lemma_module_writes_member(d, now, i, j, id);
        let k = choose|k: int|
            0 <= k < module_writes(d, now).len() && module_writes(d, now)[k].key == id;
        assert(module_writes(ins, now)[k].key == id);
    }
}

/// Every discussion of every fetched batch stands in the pass's result,
/// stamped with the pass's own time, whatever failed elsewhere.
pub proof fn lemma_pass_writes_discussions(
    m: StoreModel,
    ins: Seq<CourseInput>,
    now: i64,
    i: int,
    j: int,
    id: u64,
)
    requires
        unique_keys(m.discussions),
        valid_ts(now),
        0 <= i < ins.len(),
        ins[i].discussions matches Ok(v) && 0 <= j < v@.len() && v@[j].id == id,
    ensures
        has_key(pass_result(m, ins, now).discussions, id),
        row_at(pass_result(m, ins, now).discussions, id).last_sync == rfc3339_of(now),
{
    lemma_discussion_writes_member(ins, now, i, j, id);
    lemma_discussion_writes_stamped(ins, now);
    lemma_upsert_all(m.discussions, discussion_writes(ins, now));
    lemma_last_write_in(discussion_writes(ins, now), id);
}

/// Every module of every fetched batch stands in the pass's result, stamped
/// with the pass's own time, whatever failed elsewhere.
pub proof fn lemma_pass_writes_modules(
    m: StoreModel,
    ins: Seq<CourseInput>,
    now: i64,
    i: int,
    j: int,
    id: u64,
)
    requires
        unique_keys(m.modules),
        valid_ts(now),
        0 <= i < ins.len(),
        ins[i].modules matches Ok(v) && 0 <= j < v@.len() && v@[j].module.id == id,
    ensures
        has_key(pass_result(m, ins, now).modules, id),
        row_at(pass_result(m, ins, now).modules, id).last_sync == rfc3339_of(now),
{
    lemma_module_writes_member(ins, now, i, j, id);
    lemma_module_writes_stamped(ins, now);
    lemma_upsert_all(m.modules, module_writes(ins, now));
    lemma_last_write_in(module_writes(ins, now), id);
}

/// A failed child-batch fetch for one course costs exactly that batch: two
/// passes whose inputs agree on everything but the assignment batches leave
/// identical courses, discussions, modules and module-items tables.
pub proof fn lemma_assignment_fetch_isolated(
    m: StoreModel,
    ins1: Seq<CourseInput>,
    ins2: Seq<CourseInput>,
    now: i64,
)
    requires
        ins1.len() == ins2.len(),
        forall|i: int|
            0 <= i < ins1.len() ==> (#[trigger] ins1[i]).course == ins2[i].course && ins1[i].discussions
                == ins2[i].discussions && ins1[i].modules == ins2[i].modules,
    ensures
        pass_result(m, ins1, now).courses == pass_result(m, ins2, now).courses,
        pass_result(m, ins1, now).discussions == pass_result(m, ins2, now).discussions,
        pass_result(m, ins1, now).modules == pass_result(m, ins2, now).modules,
        pass_result(m, ins1, now).module_items == pass_result(m, ins2, now).module_items,
{
    lemma_extractions_ignore_assignments(ins1, ins2, now);
}

/// The write batches of every table but assignments and sync records read
/// nothing from the assignment batches.
proof fn lemma_extractions_ignore_assignments(
    ins1: Seq<CourseInput>,
    ins2: Seq<CourseInput>,
    now: i64,
)
    requires
        ins1.len() == ins2.len(),
        forall|i: int|
            0 <= i < ins1.len() ==> (#[trigger] ins1[i]).course == ins2[i].course && ins1[i].discussions
                == ins2[i].discussions && ins1[i].modules == ins2[i].modules,
    ensures
        course_writes(ins1, now) == course_writes(ins2, now),
        discussion_writes(ins1, now) == discussion_writes(ins2, now),
        module_writes(ins1, now) == module_writes(ins2, now),
        module_item_writes(ins1, now) == module_item_writes(ins2, now),
    decreases ins1.len(),
{
    if ins1.len() > 0 {
        assert(forall|i: int| 0 <= i < ins1.len() - 1 ==> ins1.drop_last()[i] == ins1[i]);
        assert(forall|i: int| 0 <= i < ins2.len() - 1 ==> ins2.drop_last()[i] == ins2[i]);
        lemma_extractions_ignore_assignments(ins1.drop_last(), ins2.drop_last(), now);
        assert(ins1[ins1.len() - 1].course == ins2[ins2.len() - 1].course);
        assert(course_disc_writes(ins1.last(), now) == course_disc_writes(ins2.last(), now));
        assert(course_mod_writes(ins1.last(), now) == course_mod_writes(ins2.last(), now));
        assert(course_item_writes(ins1.last(), now) == course_item_writes(ins2.last(), now));
    }
}

/// The per-list row shapes, index by index.
proof fn lemma_asg_rows_pointwise(cid: u64, list: Seq<Assignment>, now: i64)
    ensures
        asg_rows(cid, list, now).len() == list.len(),
        forall|i: int|
            0 <= i < list.len() ==> asg_rows(cid, list, now)[i] == assignment_row(
                cid,
                #[trigger] list[i],
                now,
            ),
    decreases list.len(),
{
    if list.len() > 0 {
        lemma_asg_rows_pointwise(cid, list.drop_last(), now);
        assert(forall|i: int| 0 <= i < list.len() - 1 ==> list.drop_last()[i] == list[i]);
    }
}

proof fn lemma_disc_rows_pointwise(cid: u64, list: Seq<Discussion>, now: i64)
    ensures
        disc_rows(cid, list, now).len() == list.len(),
        forall|i: int|
            0 <= i < list.len() ==> disc_rows(cid, list, now)[i] == discussion_row(
                cid,
                #[trigger] list[i],
                now,
            ),
    decreases list.len(),
{
    if list.len() > 0 {
        lemma_disc_rows_pointwise(cid, list.drop_last(), now);
        assert(forall|i: int| 0 <= i < list.len() - 1 ==> list.drop_last()[i] == list[i]);
    }
}

proof fn lemma_mod_rows_pointwise(cid: u64, list: Seq<ModuleInput>, now: i64)
    ensures
        mod_rows(cid, list, now).len() == list.len(),
        forall|i: int|
            0 <= i < list.len() ==> mod_rows(cid, list, now)[i] == module_row(
                cid,
                (#[trigger] list[i]).module,
                now,
            ),
    decreases list.len(),
{
    if list.len() > 0 {
        lemma_mod_rows_pointwise(cid, list.drop_last(), now);
        assert(forall|i: int| 0 <= i < list.len() - 1 ==> list.drop_last()[i] == list[i]);
    }
}

proof fn lemma_item_rows_pointwise(mid: u64, list: Seq<ModuleItem>, now: i64)
    ensures
        item_rows(mid, list, now).len() == list.len(),
        forall|i: int|
            0 <= i < list.len() ==> item_rows(mid, list, now)[i] == module_item_row(
                mid,
                #[trigger] list[i],
                now,
            ),
    decreases list.len(),
{
    if list.len() > 0 {
        lemma_item_rows_pointwise(mid, list.drop_last(), now);
        assert(forall|i: int| 0 <= i < list.len() - 1 ==> list.drop_last()[i] == list[i]);
    }
}

/// Blanked, a batch of rows reads the same whichever instant stamped it.
proof fn lemma_asg_rows_scrub(cid: u64, list: Seq<Assignment>, t1: i64, t2: i64)
    ensures
        scrub(asg_rows(cid, list, t1)) == scrub(asg_rows(cid, list, t2)),
{
    lemma_asg_rows_pointwise(cid, list, t1);
    lemma_asg_rows_pointwise(cid, list, t2);
    assert forall|i: int|
        0 <= i < scrub(asg_rows(cid, list, t1)).len() implies scrub(asg_rows(cid, list, t1))[i] == scrub(
        asg_rows(cid, list, t2),
    )[i] by {
        assert(asg_rows(cid, list, t1)[i] == assignment_row(cid, list[i], t1));
        assert(asg_rows(cid, list, t2)[i] == assignment_row(cid, list[i], t2));
    }
    assert(scrub(asg_rows(cid, list, t1)) =~= scrub(asg_rows(cid, list, t2)));
}

proof fn lemma_disc_rows_scrub(cid: u64, list: Seq<Discussion>, t1: i64, t2: i64)
    ensures
        scrub(disc_rows(cid, list, t1)) == scrub(disc_rows(cid, list, t2)),
{
    lemma_disc_rows_pointwise(cid, list, t1);
    lemma_disc_rows_pointwise(cid, list, t2);
    assert forall|i: int|
        0 <= i < scrub(disc_rows(cid, list, t1)).len() implies scrub(disc_rows(cid, list, t1))[i] == scrub(
        disc_rows(cid, list, t2),
    )[i] by {
        assert(disc_rows(cid, list, t1)[i] == discussion_row(cid, list[i], t1));
        assert(disc_rows(cid, list, t2)[i] == discussion_row(cid, list[i], t2));
    }
    assert(scrub(disc_rows(cid, list, t1)) =~= scrub(disc_rows(cid, list, t2)));
}

proof fn lemma_mod_rows_scrub(cid: u64, list: Seq<ModuleInput>, t1: i64, t2: i64)
    ensures
        scrub(mod_rows(cid, list, t1)) == scrub(mod_rows(cid, list, t2)),
{
    lemma_mod_rows_pointwise(cid, list, t1);
    lemma_mod_rows_pointwise(cid, list, t2);
    assert forall|i: int|
        0 <= i < scrub(mod_rows(cid, list, t1)).len() implies scrub(mod_rows(cid, list, t1))[i] == scrub(
        mod_rows(cid, list, t2),
    )[i] by {
        assert(mod_rows(cid, list, t1)[i] == module_row(cid, list[i].module, t1));
        assert(mod_rows(cid, list, t2)[i] == module_row(cid, list[i].module, t2));
    }
    assert(scrub(mod_rows(cid, list, t1)) =~= scrub(mod_rows(cid, list, t2)));
}

proof fn lemma_item_rows_scrub(mid: u64, list: Seq<ModuleItem>, t1: i64, t2: i64)
    ensures
        scrub(item_rows(mid, list, t1)) == scrub(item_rows(mid, list, t2)),
{
    lemma_item_rows_pointwise(mid, list, t1);
    lemma_item_rows_pointwise(mid, list, t2);
    assert forall|i: int|
        0 <= i < scrub(item_rows(mid, list, t1)).len() implies scrub(item_rows(mid, list, t1))[i] == scrub(
        item_rows(mid, list, t2),
    )[i] by {
        assert(item_rows(mid, list, t1)[i] == module_item_row(mid, list[i], t1));
        assert(item_rows(mid, list, t2)[i] == module_item_row(mid, list[i], t2));
    }
    assert(scrub(item_rows(mid, list, t1)) =~= scrub(item_rows(mid, list, t2)));
}

proof fn lemma_course_writes_scrub(ins: Seq<CourseInput>, t1: i64, t2: i64)
    ensures
        scrub(course_writes(ins, t1)) == scrub(course_writes(ins, t2)),
{
    lemma_course_writes_pointwise(ins, t1);
    lemma_course_writes_pointwise(ins, t2);
    assert forall|i: int|
        0 <= i < scrub(course_writes(ins, t1)).len() implies scrub(course_writes(ins, t1))[i] == scrub(
        course_writes(ins, t2),
    )[i] by {
        assert(course_writes(ins, t1)[i] == course_row(ins[i].course, t1));
        assert(course_writes(ins, t2)[i] == course_row(ins[i].course, t2));
    }
    assert(scrub(course_writes(ins, t1)) =~= scrub(course_writes(ins, t2)));
}

proof fn lemma_items_of_modules_scrub(list: Seq<ModuleInput>, t1: i64, t2: i64)
    ensures
        scrub(items_of_modules(list, t1)) == scrub(items_of_modules(list, t2)),
    decreases list.len(),
{
    if list.len() > 0 {
        lemma_items_of_modules_scrub(list.drop_last(), t1, t2);
        lemma_scrub_concat(items_of_modules(list.drop_last(), t1), mi_item_writes(list.last(), t1));
        lemma_scrub_concat(items_of_modules(list.drop_last(), t2), mi_item_writes(list.last(), t2));
        match list.last().items {
            Ok(v) => {
                lemma_item_rows_scrub(list.last().module.id, v@, t1, t2);
            },
            Err(_) => {},
        }
    }
}

proof fn lemma_assignment_writes_scrub(ins: Seq<CourseInput>, t1: i64, t2: i64)
    ensures
        scrub(assignment_writes(ins, t1)) == scrub(assignment_writes(ins, t2)),
    decreases ins.len(),
{
    if ins.len() > 0 {
        lemma_assignment_writes_scrub(ins.drop_last(), t1, t2);
        lemma_scrub_concat(assignment_writes(ins.drop_last(), t1), course_asg_writes(ins.last(), t1));
        lemma_scrub_concat(assignment_writes(ins.drop_last(), t2), course_asg_writes(ins.last(), t2));
        match ins.last().assignments {
            Ok(v) => {
                lemma_asg_rows_scrub(ins.last().course.id, v@, t1, t2);
            },
            Err(_) => {},
        }
    }
}

proof fn lemma_discussion_writes_scrub(ins: Seq<CourseInput>, t1: i64, t2: i64)
    ensures
        scrub(discussion_writes(ins, t1)) == scrub(discussion_writes(ins, t2)),
    decreases ins.len(),
{
    if ins.len() > 0 {
        lemma_discussion_writes_scrub(ins.drop_last(), t1, t2);
        lemma_scrub_concat(discussion_writes(ins.drop_last(), t1), course_disc_writes(ins.last(), t1));
        lemma_scrub_concat(discussion_writes(ins.drop_last(), t2), course_disc_writes(ins.last(), t2));
        match ins.last().discussions {
            Ok(v) => {
                lemma_disc_rows_scrub(ins.last().course.id, v@, t1, t2);
            },
            Err(_) => {},
        }
    }
}

proof fn lemma_module_writes_scrub(ins: Seq<CourseInput>, t1: i64, t2: i64)
    ensures
        scrub(module_writes(ins, t1)) == scrub(module_writes(ins, t2)),
    decreases ins.len(),
{
    if ins.len() > 0 {
        lemma_module_writes_scrub(ins.drop_last(), t1, t2);
        lemma_scrub_concat(module_writes(ins.drop_last(), t1), course_mod_writes(ins.last(), t1));
        lemma_scrub_concat(module_writes(ins.drop_last(), t2), course_mod_writes(ins.last(), t2));
        match ins.last().modules {
            Ok(v) => {
                lemma_mod_rows_scrub(ins.last().course.id, v@, t1, t2);
            },
            Err(_) => {},
        }
    }
}

proof fn lemma_module_item_writes_scrub(ins: Seq<CourseInput>, t1: i64, t2: i64)
    ensures
        scrub(module_item_writes(ins, t1)) == scrub(module_item_writes(ins, t2)),
    decreases ins.len(),
{
    if ins.len() > 0 {
        lemma_module_item_writes_scrub(ins.drop_last(), t1, t2);
        lemma_scrub_concat(module_item_writes(ins.drop_last(), t1), course_item_writes(ins.last(), t1));
        lemma_scrub_concat(module_item_writes(ins.drop_last(), t2), course_item_writes(ins.last(), t2));
        match ins.last().modules {
            Ok(v) => {
                lemma_items_of_modules_scrub(v@, t1, t2);
            },
            Err(_) => {},
        }
    }
}

proof fn lemma_opt_mark_scrub(on: bool, name: Seq<char>, t1: i64, t2: i64)
    ensures
        scrub(opt_mark(on, name, t1)) == scrub(opt_mark(on, name, t2)),
{
    assert(scrub(opt_mark(on, name, t1)) =~= scrub(opt_mark(on, name, t2)));
}

proof fn lemma_item_marks_scrub(list: Seq<ModuleInput>, t1: i64, t2: i64)
    ensures
        scrub(item_marks(list, t1)) == scrub(item_marks(list, t2)),
    decreases list.len(),
{
    if list.len() > 0 {
        lemma_item_marks_scrub(list.drop_last(), t1, t2);
        lemma_scrub_concat(
            item_marks(list.drop_last(), t1),
            opt_mark(list.last().items is Ok, "module_items"@, t1),
        );
        lemma_scrub_concat(
            item_marks(list.drop_last(), t2),
            opt_mark(list.last().items is Ok, "module_items"@, t2),
        );
        lemma_opt_mark_scrub(list.last().items is Ok, "module_items"@, t1, t2);
    }
}

proof fn lemma_course_status_writes_scrub(ci: CourseInput, t1: i64, t2: i64)
    ensures
        scrub(course_status_writes(ci, t1)) == scrub(course_status_writes(ci, t2)),
{
    let a1 = opt_mark(ci.assignments is Ok, "assignments"@, t1);
    let a2 = opt_mark(ci.assignments is Ok, "assignments"@, t2);
    let d1 = opt_mark(ci.discussions is Ok, "discussions"@, t1);
    let d2 = opt_mark(ci.discussions is Ok, "discussions"@, t2);
    let im1 = match ci.modules {
        Ok(list) => item_marks(list@, t1),
        Err(_) => Seq::empty(),
    };
    let im2 = match ci.modules {
        Ok(list) => item_marks(list@, t2),
        Err(_) => Seq::empty(),
    };
    let m1 = opt_mark(ci.modules is Ok, "modules"@, t1);
    let m2 = opt_mark(ci.modules is Ok, "modules"@, t2);
    lemma_opt_mark_scrub(ci.assignments is Ok, "assignments"@, t1, t2);
    lemma_opt_mark_scrub(ci.discussions is Ok, "discussions"@, t1, t2);
    lemma_opt_mark_scrub(ci.modules is Ok, "modules"@, t1, t2);
    match ci.modules {
        Ok(list) => {
            lemma_item_marks_scrub(list@, t1, t2);
        },
        Err(_) => {},
    }
    lemma_scrub_concat(a1, d1);
    lemma_scrub_concat(a2, d2);
    lemma_scrub_concat(a1 + d1, im1);
    lemma_scrub_concat(a2 + d2, im2);
    lemma_scrub_concat(a1 + d1 + im1, m1);
    lemma_scrub_concat(a2 + d2 + im2, m2);
}

proof fn lemma_status_writes_scrub(ins: Seq<CourseInput>, t1: i64, t2: i64)
    ensures
        scrub(status_writes(ins, t1)) == scrub(status_writes(ins, t2)),
    decreases ins.len(),
{
    if ins.len() > 0 {
        lemma_status_writes_scrub(ins.drop_last(), t1, t2);
        lemma_scrub_concat(status_writes(ins.drop_last(), t1), course_status_writes(ins.last(), t1));
        lemma_scrub_concat(status_writes(ins.drop_last(), t2), course_status_writes(ins.last(), t2));
        lemma_course_status_writes_scrub(ins.last(), t1, t2);
    }
}

/// Two passes in a row over the same fetched data leave the same tables, row
/// for row and in the same order; only the `last_sync` stamps change.
pub proof fn lemma_pass_idempotent(m: StoreModel, ins: Seq<CourseInput>, t1: i64, t2: i64)
    requires
        wf_model(m),
        valid_ts(t1),
        valid_ts(t2),
    ensures
        scrub_model(pass_result(pass_result(m, ins, t1), ins, t2)) == scrub_model(
            pass_result(m, ins, t1),
        ),
        pass_result(pass_result(m, ins, t1), ins, t2).courses.len() == pass_result(
            m,
            ins,
            t1,
        ).courses.len(),
        pass_result(pass_result(m, ins, t1), ins, t2).assignments.len() == pass_result(
            m,
            ins,
            t1,
        ).assignments.len(),
        pass_result(pass_result(m, ins, t1), ins, t2).discussions.len() == pass_result(
            m,
            ins,
            t1,
        ).discussions.len(),
        pass_result(pass_result(m, ins, t1), ins, t2).modules.len() == pass_result(
            m,
            ins,
            t1,
        ).modules.len(),
        pass_result(pass_result(m, ins, t1), ins, t2).module_items.len() == pass_result(
            m,
            ins,
            t1,
        ).module_items.len(),
        pass_result(pass_result(m, ins, t1), ins, t2).sync_status.len() == pass_result(
            m,
            ins,
            t1,
        ).sync_status.len(),
{
    lemma_course_writes_scrub(ins, t1, t2);
    lemma_assignment_writes_scrub(ins, t1, t2);
    lemma_discussion_writes_scrub(ins, t1, t2);
    lemma_module_writes_scrub(ins, t1, t2);
    lemma_module_item_writes_scrub(ins, t1, t2);
    lemma_status_writes_scrub(ins, t1, t2);
    lemma_upsert_all_again(m.courses, course_writes(ins, t1), course_writes(ins, t2));
    lemma_upsert_all_again(m.assignments, assignment_writes(ins, t1), assignment_writes(ins, t2));
    lemma_upsert_all_again(m.discussions, discussion_writes(ins, t1), discussion_writes(ins, t2));
    lemma_upsert_all_again(m.modules, module_writes(ins, t1), module_writes(ins, t2));
    lemma_upsert_all_again(
        m.module_items,
        module_item_writes(ins, t1),
        module_item_writes(ins, t2),
    );
    lemma_upsert_all_again(m.sync_status, status_writes(ins, t1), status_writes(ins, t2));
    let p1 = pass_result(m, ins, t1);
    let p2 = pass_result(p1, ins, t2);
    assert(scrub(p1.courses).len() == p1.courses.len());
    assert(scrub(p2.courses).len() == p2.courses.len());
    assert(scrub(p1.assignments).len() == p1.assignments.len());
    assert(scrub(p2.assignments).len() == p2.assignments.len());
    assert(scrub(p1.discussions).len() == p1.discussions.len());
    assert(scrub(p2.discussions).len() == p2.discussions.len());
    assert(scrub(p1.modules).len() == p1.modules.len());
    assert(scrub(p2.modules).len() == p2.modules.len());
    assert(scrub(p1.module_items).len() == p1.module_items.len());
    assert(scrub(p2.module_items).len() == p2.module_items.len());
    assert(scrub(p1.sync_status).len() == p1.sync_status.len());
    assert(scrub(p2.sync_status).len() == p2.sync_status.len());
}

} // verus!
