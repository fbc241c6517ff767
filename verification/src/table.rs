//! The mathematical model of one store table: a sequence of keyed rows with
//! insert-or-replace writes.
//!
//! Every table of the store is a sequence of [`Row`]s. A write replaces the
//! row with the same key in place, or appends a fresh row at the end; rows are
//! never removed. The lemmas here carry the store's laws: a key holds exactly
//! one row, a batch of writes leaves the last write of each key, and applying
//! the same batch twice changes nothing but the `last_sync` text.

use vstd::prelude::*;

verus! {

/// One stored row: its key, the mirrored attribute values, and the text of
/// its `last_sync` column.
#[verifier::reject_recursive_types(K)]
pub ghost struct Row<K> {
    pub key: K,
    pub val: RowVal,
    pub last_sync: Seq<char>,
}

/// The attribute values a row mirrors, one variant per table.
pub ghost enum RowVal {
    Course {
        name: Option<Seq<char>>,
        course_code: Option<Seq<char>>,
        enrollment_term_id: Option<u64>,
        total_students: Option<u64>,
        start_at: Option<i64>,
        end_at: Option<i64>,
    },
    Assignment {
        course_id: u64,
        name: Seq<char>,
        description: Option<Seq<char>>,
        due_at: Option<i64>,
        points_possible: Option<u64>,
        html_url: Seq<char>,
    },
    Discussion {
        course_id: u64,
        title: Seq<char>,
        message: Seq<char>,
        posted_at: Option<i64>,
        discussion_type: Seq<char>,
        pinned: bool,
    },
    Module {
        course_id: u64,
        name: Seq<char>,
        position: i32,
        unlock_at: Option<i64>,
        state: Seq<char>,
        completed_at: Option<i64>,
    },
    ModuleItem {
        module_id: u64,
        position: i32,
        title: Seq<char>,
        item_type: Seq<char>,
        content_id: Option<u64>,
    },
    /// A sync-record row carries nothing besides its key and timestamp.
    Status,
}

/// Index of the first row with key `k`, or `s.len()` if there is none.
pub open spec fn idx_of<K>(s: Seq<Row<K>>, k: K) -> int
    decreases s.len(),
{
    if s.len() == 0 {
        0
    } else if s[0].key == k {
        0
    } else {
        1 + idx_of(s.drop_first(), k)
    }
}

/// Whether some row of `s` has key `k`.
pub open spec fn has_key<K>(s: Seq<Row<K>>, k: K) -> bool {
    idx_of(s, k) < s.len()
}

/// The first row of `s` with key `k`.
pub open spec fn row_at<K>(s: Seq<Row<K>>, k: K) -> Row<K> {
    s[idx_of(s, k)]
}

/// Insert-or-replace: the row with `r`'s key is replaced in place, or `r` is
/// appended.
pub open spec fn upsert<K>(s: Seq<Row<K>>, r: Row<K>) -> Seq<Row<K>> {
    if has_key(s, r.key) {
        s.update(idx_of(s, r.key), r)
    } else {
        s.push(r)
    }
}

/// All of `ws` upserted into `s`, first write first.
pub open spec fn upsert_all<K>(s: Seq<Row<K>>, ws: Seq<Row<K>>) -> Seq<Row<K>>
    decreases ws.len(),
{
    if ws.len() == 0 {
        s
    } else {
        upsert(upsert_all(s, ws.drop_last()), ws.last())
    }
}

/// No two rows share a key.
pub open spec fn unique_keys<K>(s: Seq<Row<K>>) -> bool {
    forall|i: int, j: int| 0 <= i < j < s.len() ==> s[i].key != s[j].key
}

/// Whether the write batch `ws` touches key `k`.
pub open spec fn writes_key<K>(ws: Seq<Row<K>>, k: K) -> bool {
    exists|i: int| 0 <= i < ws.len() && ws[i].key == k
}

/// The last write of key `k` in `ws`.
pub open spec fn last_write<K>(ws: Seq<Row<K>>, k: K) -> Row<K>
    decreases ws.len(),
{
    if ws.len() == 0 {
        arbitrary()
    } else if ws.last().key == k {
        ws.last()
    } else {
        last_write(ws.drop_last(), k)
    }
}

/// The same rows with their `last_sync` text blanked: what a table says
/// apart from when it was written.
pub open spec fn scrub<K>(s: Seq<Row<K>>) -> Seq<Row<K>> {
    s.map_values(|r: Row<K>| Row { key: r.key, val: r.val, last_sync: Seq::<char>::empty() })
}

/// How many rows of `s` carry key `k`.
pub open spec fn key_count<K>(s: Seq<Row<K>>, k: K) -> int
    decreases s.len(),
{
    if s.len() == 0 {
        0
    } else {
        key_count(s.drop_last(), k) + if s.last().key == k {
            1int
        } else {
            0int
        }
    }
}

/// Under unique keys, a key present once is present exactly once.
pub proof fn lemma_key_count_unique<K>(s: Seq<Row<K>>, k: K)
    requires
        unique_keys(s),
    ensures
        key_count(s, k) == if has_key(s, k) {
            1int
        } else {
            0int
        },
    decreases s.len(),
{
    lemma_has_key(s, k);
    if s.len() > 0 {
        let d = s.drop_last();
        assert(forall|i: int| 0 <= i < d.len() ==> d[i] == s[i]);
        lemma_key_count_unique(d, k);
        lemma_has_key(d, k);
        if s.last().key == k {
            if has_key(d, k) {
                let i = choose|i: int| 0 <= i < d.len() && d[i].key == k;
                assert(s[i].key == s[s.len() - 1].key);
                assert(false);
            }
        } else {
            if has_key(s, k) {
                let i = choose|i: int| 0 <= i < s.len() && s[i].key == k;
                assert(d[i].key == k);
            }
        }
    }
}

/// The last write of a written key is one of the batch's rows, and carries
/// the key.
pub proof fn lemma_last_write_in<K>(ws: Seq<Row<K>>, k: K)
    requires
        writes_key(ws, k),
    ensures
        last_write(ws, k).key == k,
        exists|i: int| 0 <= i < ws.len() && ws[i] == last_write(ws, k),
    decreases ws.len(),
{
    let d = ws.drop_last();
    if ws.last().key == k {
        assert(ws[ws.len() - 1] == last_write(ws, k));
    } else {
        assert(writes_key(d, k)) by {
            let i = choose|i: int| 0 <= i < ws.len() && ws[i].key == k;
            assert(d[i] == ws[i]);
        }
        lemma_last_write_in(d, k);
        let i = choose|i: int| 0 <= i < d.len() && d[i] == last_write(d, k);
        assert(ws[i] == last_write(ws, k));
    }
}

/// Blanking timestamps distributes over concatenation.
pub proof fn lemma_scrub_concat<K>(a: Seq<Row<K>>, b: Seq<Row<K>>)
    ensures
        scrub(a + b) == scrub(a) + scrub(b),
{
    assert forall|i: int| 0 <= i < (a + b).len() implies scrub(a + b)[i] == (scrub(a) + scrub(
        b,
    ))[i] by {
        if i < a.len() {
            assert((a + b)[i] == a[i]);
        } else {
            assert((a + b)[i] == b[i - a.len()]);
        }
    }
    assert(scrub(a + b) =~= scrub(a) + scrub(b));
}

/// `idx_of` finds the first row with the key, if any.
pub proof fn lemma_idx_of<K>(s: Seq<Row<K>>, k: K)
    ensures
        0 <= idx_of(s, k) <= s.len(),
        idx_of(s, k) < s.len() ==> s[idx_of(s, k)].key == k,
        forall|j: int| 0 <= j < idx_of(s, k) ==> s[j].key != k,
    decreases s.len(),
{
    if s.len() > 0 && s[0].key != k {
        lemma_idx_of(s.drop_first(), k);
        assert forall|j: int| 0 <= j < idx_of(s, k) implies s[j].key != k by {
            if j > 0 {
                assert(s.drop_first()[j - 1] == s[j]);
            }
        }
        if idx_of(s, k) < s.len() {
            assert(s.drop_first()[idx_of(s.drop_first(), k)] == s[idx_of(s, k)]);
        }
    }
}

/// A key is present exactly when some row carries it.
pub proof fn lemma_has_key<K>(s: Seq<Row<K>>, k: K)
    ensures
        has_key(s, k) <==> exists|i: int| 0 <= i < s.len() && s[i].key == k,
    decreases s.len(),
{
    lemma_idx_of(s, k);
    if exists|i: int| 0 <= i < s.len() && s[i].key == k {
        let i = choose|i: int| 0 <= i < s.len() && s[i].key == k;
        if idx_of(s, k) >= s.len() {
            assert(s[i].key != k);
        }
    }
}

/// With unique keys, a row is found exactly where it stands.
pub proof fn lemma_idx_of_self<K>(s: Seq<Row<K>>, i: int)
    requires
        unique_keys(s),
        0 <= i < s.len(),
    ensures
        idx_of(s, s[i].key) == i,
{
    lemma_idx_of(s, s[i].key);
    lemma_has_key(s, s[i].key);
    let f = idx_of(s, s[i].key);
    if f < i {
        assert(s[f].key == s[i].key);
    }
}

/// Two tables with the same keys in the same places index alike.
pub proof fn lemma_idx_of_same_keys<K>(s1: Seq<Row<K>>, s2: Seq<Row<K>>, k: K)
    requires
        s1.len() == s2.len(),
        forall|i: int| 0 <= i < s1.len() ==> s1[i].key == s2[i].key,
    ensures
        idx_of(s1, k) == idx_of(s2, k),
    decreases s1.len(),
{
    if s1.len() > 0 {
        assert(s1[0].key == s2[0].key);
        if s1[0].key != k {
            assert forall|i: int| 0 <= i < s1.drop_first().len() implies s1.drop_first()[i].key
                == s2.drop_first()[i].key by {
                assert(s1.drop_first()[i] == s1[i + 1]);
                assert(s2.drop_first()[i] == s2[i + 1]);
            }
            lemma_idx_of_same_keys(s1.drop_first(), s2.drop_first(), k);
        }
    }
}

/// What one upsert does: the written key holds the written row, every other
/// key is untouched, and uniqueness is kept.
pub proof fn lemma_upsert<K>(s: Seq<Row<K>>, r: Row<K>)
    requires
        unique_keys(s),
    ensures
        unique_keys(upsert(s, r)),
        upsert(s, r).len() == if has_key(s, r.key) {
            s.len()
        } else {
            s.len() + 1
        },
        forall|k: K| #[trigger] has_key(upsert(s, r), k) <==> has_key(s, k) || k == r.key,
        row_at(upsert(s, r), r.key) == r,
        forall|k: K| k != r.key && has_key(s, k) ==> #[trigger] row_at(upsert(s, r), k) == row_at(
            s,
            k,
        ),
        forall|i: int| 0 <= i < s.len() ==> #[trigger] upsert(s, r)[i].key == if i == idx_of(
            s,
            r.key,
        ) {
            r.key
        } else {
            s[i].key
        },
{
    lemma_idx_of(s, r.key);
    let t = upsert(s, r);
    if has_key(s, r.key) {
        let p = idx_of(s, r.key);
        assert(s[p].key == r.key);
        assert(t.len() == s.len());
        assert(forall|i: int| 0 <= i < s.len() ==> t[i].key == if i == p {
            r.key
        } else {
            s[i].key
        });
        assert(unique_keys(t));
        lemma_idx_of_same_keys(s, t, r.key);
        assert(row_at(t, r.key) == r);
        assert forall|k: K| #[trigger] has_key(t, k) implies has_key(s, k) || k == r.key by {
            lemma_has_key(t, k);
            lemma_has_key(s, k);
            if has_key(t, k) && k != r.key {
                let i = choose|i: int| 0 <= i < t.len() && t[i].key == k;
                assert(s[i].key == k);
            }
        }
        assert forall|k: K| has_key(s, k) implies has_key(t, k) by {
            lemma_has_key(t, k);
            lemma_has_key(s, k);
            let i = choose|i: int| 0 <= i < s.len() && s[i].key == k;
            if k == s[p].key {
                assert(t[p].key == r.key);
                lemma_idx_of_self(s, i);
                assert(i == p);
                assert(t[i].key == r.key);
            } else {
                assert(t[i].key == k);
            }
        }
        assert forall|k: K| k != r.key && has_key(s, k) implies #[trigger] row_at(t, k) == row_at(
            s,
            k,
        ) by {
            lemma_idx_of_same_keys(s, t, k);
            lemma_idx_of(s, k);
            assert(idx_of(s, k) != p);
        }
    } else {
        assert(t == s.push(r));
        assert forall|i: int, j: int| 0 <= i < j < t.len() implies t[i].key != t[j].key by {
            lemma_has_key(s, r.key);
            if j == s.len() {
                assert(t[i] == s[i]);
                assert(s[i].key != r.key);
            }
        }
        assert forall|k: K| #[trigger] has_key(t, k) implies has_key(s, k) || k == r.key by {
            lemma_has_key(t, k);
            lemma_has_key(s, k);
            if has_key(t, k) && k != r.key {
                let i = choose|i: int| 0 <= i < t.len() && t[i].key == k;
                assert(i < s.len());
                assert(s[i].key == k);
            }
        }
        assert forall|k: K| has_key(s, k) || k == r.key implies has_key(t, k) by {
            lemma_has_key(t, k);
            lemma_has_key(s, k);
            if has_key(s, k) {
                let i = choose|i: int| 0 <= i < s.len() && s[i].key == k;
                assert(t[i].key == k);
            } else {
                assert(t[s.len() as int].key == r.key);
            }
        }
        assert(unique_keys(t));
        lemma_idx_of_self(t, s.len() as int);
        assert(row_at(t, r.key) == r);
        assert forall|k: K| k != r.key && has_key(s, k) implies #[trigger] row_at(t, k) == row_at(
            s,
            k,
        ) by {
            lemma_idx_of(s, k);
            lemma_idx_of_self(t, idx_of(s, k));
        }
    }
}

/// Upserting in sequence is upserting batch after batch.
pub proof fn lemma_upsert_all_concat<K>(s: Seq<Row<K>>, w1: Seq<Row<K>>, w2: Seq<Row<K>>)
    ensures
        upsert_all(s, w1 + w2) == upsert_all(upsert_all(s, w1), w2),
    decreases w2.len(),
{
    if w2.len() == 0 {
        assert(w1 + w2 =~= w1);
    } else {
        lemma_upsert_all_concat(s, w1, w2.drop_last());
        assert((w1 + w2).drop_last() =~= w1 + w2.drop_last());
        assert((w1 + w2).last() == w2.last());
    }
}

/// One more write at the end of a batch lands last.
pub proof fn lemma_upsert_all_push<K>(s: Seq<Row<K>>, ws: Seq<Row<K>>, r: Row<K>)
    ensures
        upsert_all(s, ws.push(r)) == upsert(upsert_all(s, ws), r),
{
    assert(ws.push(r).drop_last() =~= ws);
    assert(ws.push(r).last() == r);
}

/// A batch of one write is that write.
pub proof fn lemma_upsert_all_one<K>(s: Seq<Row<K>>, r: Row<K>)
    ensures
        upsert_all(s, seq![r]) == upsert(s, r),
{
    let ws = seq![r];
    assert(ws.len() == 1);
    assert(ws.drop_last().len() == 0);
    assert(upsert_all(s, ws.drop_last()) == s);
    assert(ws.last() == r);
}

/// What a whole batch does: each written key ends at its last write, the
/// rest is untouched, and uniqueness is kept.
pub proof fn lemma_upsert_all<K>(s: Seq<Row<K>>, ws: Seq<Row<K>>)
    requires
        unique_keys(s),
    ensures
        unique_keys(upsert_all(s, ws)),
        forall|k: K| #[trigger] has_key(upsert_all(s, ws), k) <==> has_key(s, k) || writes_key(
            ws,
            k,
        ),
        forall|k: K| #[trigger] writes_key(ws, k) ==> row_at(upsert_all(s, ws), k) == last_write(
            ws,
            k,
        ),
        forall|k: K| !writes_key(ws, k) && has_key(s, k) ==> #[trigger] row_at(upsert_all(s, ws), k)
            == row_at(s, k),
    decreases ws.len(),
{
    if ws.len() > 0 {
        let prev = upsert_all(s, ws.drop_last());
        let w = ws.last();
        lemma_upsert_all(s, ws.drop_last());
        lemma_upsert(prev, w);
        assert forall|k: K| #[trigger] writes_key(ws, k) && k != w.key implies writes_key(
            ws.drop_last(),
            k,
        ) by {
            let i = choose|i: int| 0 <= i < ws.len() && ws[i].key == k;
            assert(ws.drop_last()[i] == ws[i]);
        }
        assert forall|k: K| #[trigger] writes_key(ws.drop_last(), k) implies writes_key(ws, k) by {
            let i = choose|i: int| 0 <= i < ws.drop_last().len() && ws.drop_last()[i].key == k;
            assert(ws[i].key == k);
        }
        assert(writes_key(ws, w.key)) by {
            assert(ws[ws.len() - 1].key == w.key);
        }
        assert forall|k: K| #[trigger] writes_key(ws, k) implies row_at(upsert_all(s, ws), k)
            == last_write(ws, k) by {
            if k == w.key {
                assert(row_at(upsert(prev, w), k) == w);
            } else {
                assert(writes_key(ws.drop_last(), k));
                assert(has_key(prev, k));
            }
        }
    }
}

/// A batch whose keys are all present neither adds rows nor moves any.
pub proof fn lemma_upsert_all_keys_kept<K>(s: Seq<Row<K>>, ws: Seq<Row<K>>)
    requires
        unique_keys(s),
        forall|i: int| 0 <= i < ws.len() ==> has_key(s, #[trigger] ws[i].key),
    ensures
        upsert_all(s, ws).len() == s.len(),
        forall|i: int| 0 <= i < s.len() ==> #[trigger] upsert_all(s, ws)[i].key == s[i].key,
    decreases ws.len(),
{
    if ws.len() > 0 {
        assert forall|i: int| 0 <= i < ws.drop_last().len() implies has_key(
            s,
            #[trigger] ws.drop_last()[i].key,
        ) by {
            assert(ws.drop_last()[i] == ws[i]);
        }
        lemma_upsert_all_keys_kept(s, ws.drop_last());
        let prev = upsert_all(s, ws.drop_last());
        let w = ws.last();
        lemma_upsert_all(s, ws.drop_last());
        lemma_upsert(prev, w);
        assert(has_key(s, w.key)) by {
            assert(ws[ws.len() - 1].key == w.key);
        }
        assert(has_key(prev, w.key));
        lemma_idx_of(prev, w.key);
    }
}

/// Applying the same batch twice is applying it once.
pub proof fn lemma_upsert_all_twice<K>(s: Seq<Row<K>>, ws: Seq<Row<K>>)
    requires
        unique_keys(s),
    ensures
        upsert_all(upsert_all(s, ws), ws) == upsert_all(s, ws),
{
    let t = upsert_all(s, ws);
    let tt = upsert_all(t, ws);
    lemma_upsert_all(s, ws);
    assert forall|i: int| 0 <= i < ws.len() implies has_key(t, #[trigger] ws[i].key) by {
        assert(writes_key(ws, ws[i].key));
    }
    lemma_upsert_all_keys_kept(t, ws);
    lemma_upsert_all(t, ws);
    assert forall|i: int| 0 <= i < t.len() implies tt[i] == t[i] by {
        let k = t[i].key;
        lemma_idx_of_self(t, i);
        lemma_idx_of_self(tt, i);
        assert(row_at(t, k) == t[i]);
        assert(row_at(tt, k) == tt[i]);
        if writes_key(ws, k) {
            assert(row_at(tt, k) == last_write(ws, k));
            assert(row_at(t, k) == last_write(ws, k));
        } else {
            assert(has_key(t, k));
            assert(row_at(tt, k) == row_at(t, k));
        }
    }
    assert(tt =~= t);
}

/// Blanking timestamps commutes with one upsert.
pub proof fn lemma_scrub_upsert<K>(s: Seq<Row<K>>, r: Row<K>)
    ensures
        scrub(upsert(s, r)) == upsert(
            scrub(s),
            Row { key: r.key, val: r.val, last_sync: Seq::<char>::empty() },
        ),
{
    let f = |x: Row<K>| Row { key: x.key, val: x.val, last_sync: Seq::<char>::empty() };
    assert forall|i: int| 0 <= i < s.len() implies scrub(s)[i].key == s[i].key by {}
    lemma_idx_of_same_keys(s, scrub(s), r.key);
    lemma_idx_of(s, r.key);
    let p = idx_of(s, r.key);
    if has_key(s, r.key) {
        let a = scrub(s.update(p, r));
        let b = scrub(s).update(p, f(r));
        assert forall|j: int| 0 <= j < a.len() implies a[j] == b[j] by {
            if j != p {
                assert(s.update(p, r)[j] == s[j]);
            }
        }
        assert(a =~= b);
    } else {
        let a = scrub(s.push(r));
        let b = scrub(s).push(f(r));
        assert forall|j: int| 0 <= j < a.len() implies a[j] == b[j] by {
            if j < s.len() {
                assert(s.push(r)[j] == s[j]);
            }
        }
        assert(a =~= b);
    }
}

/// Blanking timestamps commutes with a whole batch.
pub proof fn lemma_scrub_upsert_all<K>(s: Seq<Row<K>>, ws: Seq<Row<K>>)
    ensures
        scrub(upsert_all(s, ws)) == upsert_all(scrub(s), scrub(ws)),
    decreases ws.len(),
{
    if ws.len() == 0 {
        assert(scrub(ws).len() == 0);
    } else {
        lemma_scrub_upsert_all(s, ws.drop_last());
        lemma_scrub_upsert(upsert_all(s, ws.drop_last()), ws.last());
        assert(scrub(ws).drop_last() =~= scrub(ws.drop_last()));
        assert(scrub(ws).last() == Row {
            key: ws.last().key,
            val: ws.last().val,
            last_sync: Seq::<char>::empty(),
        });
    }
}

/// Blanking timestamps keeps keys and uniqueness.
pub proof fn lemma_scrub_unique<K>(s: Seq<Row<K>>)
    requires
        unique_keys(s),
    ensures
        unique_keys(scrub(s)),
{
    assert forall|i: int, j: int| 0 <= i < j < scrub(s).len() implies scrub(s)[i].key != scrub(
        s,
    )[j].key by {
        assert(scrub(s)[i].key == s[i].key);
        assert(scrub(s)[j].key == s[j].key);
    }
}

/// Two batches that agree apart from timestamps land on the same table apart
/// from timestamps: the heart of pass idempotence.
pub proof fn lemma_upsert_all_again<K>(s: Seq<Row<K>>, w1: Seq<Row<K>>, w2: Seq<Row<K>>)
    requires
        unique_keys(s),
        scrub(w1) == scrub(w2),
    ensures
        scrub(upsert_all(upsert_all(s, w1), w2)) == scrub(upsert_all(s, w1)),
{
    lemma_scrub_upsert_all(s, w1);
    lemma_upsert_all(s, w1);
    lemma_scrub_upsert_all(upsert_all(s, w1), w2);
    lemma_scrub_unique(s);
    lemma_upsert_all_twice(scrub(s), scrub(w1));
}

} // verus!
