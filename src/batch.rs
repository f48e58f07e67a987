use vstd::prelude::*;
use crate::ledger::{
    checksum_of, consistent, count_rows, entry_of, has_key, holds, keys_unique, outcome_of, row_of,
    step, ApplyOutcome, EntryView, Ledger, RowView, Store,
};
use crate::record::{Record, RecordView};

verus! {

pub open spec fn batch_view(b: Seq<Record>) -> Seq<RecordView> {
    b.map_values(|r: Record| r@)
}

/// Offering the records of `rs` one after another, in their order.
pub open spec fn step_all(l: Seq<EntryView>, s: Seq<RowView>, rs: Seq<RecordView>, now: u64) -> (
    Seq<EntryView>,
    Seq<RowView>,
    Seq<ApplyOutcome>,
)
    decreases rs.len(),
{
    if rs.len() == 0 {
        (l, s, Seq::empty())
    } else {
        let (l1, s1, o1) = step_all(l, s, rs.drop_last(), now);
        let (l2, s2, o) = step(l1, s1, rs.last(), now);
        (l2, s2, o1.push(o))
    }
}

/// Applies a batch through the ledger, in the order received. A conflict does
/// not stop the batch: it is reported in its place among the outcomes.
pub fn apply_batch(ledger: &mut Ledger, store: &mut Store, batch: &Vec<Record>, now: u64) -> (r: Vec<
    ApplyOutcome,
>)
    requires
        old(ledger).wf(),
    ensures
        final(ledger).wf(),
        (final(ledger).view_entries(), final(store).view_rows(), r@) == step_all(
            old(ledger).view_entries(),
            old(store).view_rows(),
            batch_view(batch@),
            now,
        ),
{
    let ghost bv = batch_view(batch@);
    let mut out: Vec<ApplyOutcome> = Vec::new();
    let mut i: usize = 0;
    assert(bv.take(0) =~= Seq::<RecordView>::empty());
    while i < batch.len()
        invariant
            bv == batch_view(batch@),
            i <= batch@.len(),
            ledger.wf(),
            (ledger.view_entries(), store.view_rows(), out@) == step_all(
                old(ledger).view_entries(),
                old(store).view_rows(),
                bv.take(i as int),
                now,
            ),
        decreases batch@.len() - i,
    {
        let o = ledger.try_apply(store, &batch[i], now);
        out.push(o);
        assert(bv.take(i + 1).drop_last() =~= bv.take(i as int));
        i = i + 1;
    }
    assert(bv.take(batch@.len() as int) =~= bv);
    out
}

proof fn lemma_consistent_absent(l: Seq<EntryView>, s: Seq<RowView>, k: Seq<char>)
    requires
        consistent(l, s),
        !has_key(l, k),
    ensures
        count_rows(s, k) == 0,
    decreases s.len(),
{
    if s.len() > 0 {
        let l0 = l.drop_last();
        let s0 = s.drop_last();
        assert(!has_key(l0, k)) by {
            if has_key(l0, k) {
                let i = choose|i: int| 0 <= i < l0.len() && l0[i].key == k;
                assert(l[i].key == k);
            }
        }
        assert(s.last().key == l.last().key);
        assert(l[l.len() - 1].key != k);
        lemma_consistent_absent(l0, s0, k);
    }
}

/// Offering a record keeps the ledger's keys distinct and the ledger and the
/// store in step with each other.
pub proof fn lemma_step_keeps(l: Seq<EntryView>, s: Seq<RowView>, r: RecordView, t: u64)
    requires
        keys_unique(l),
        consistent(l, s),
    ensures
        keys_unique(step(l, s, r, t).0),
        consistent(step(l, s, r, t).0, step(l, s, r, t).1),
{
    let (l1, s1, o) = step(l, s, r, t);
    if o == ApplyOutcome::Applied {
        assert(l1[l.len() as int] == entry_of(r, t));
        assert forall|i: int, j: int| 0 <= i < j < l1.len() implies l1[i].key != l1[j].key by {
            if j == l.len() {
                assert(l[i].key == l1[i].key);
            }
        }
    }
}

/// Offering the same record twice to a ledger that has not seen its key:
/// the first offer writes it, the second is skipped, and the store then
/// holds exactly one row for the key.
pub proof fn lemma_apply_twice(l: Seq<EntryView>, s: Seq<RowView>, r: RecordView, t1: u64, t2: u64)
    requires
        keys_unique(l),
        consistent(l, s),
        !has_key(l, r.key),
    ensures
        ({
            let (l1, s1, o1) = step(l, s, r, t1);
            let (l2, s2, o2) = step(l1, s1, r, t2);
            &&& o1 == ApplyOutcome::Applied
            &&& o2 == ApplyOutcome::Skipped
            &&& l2 == l1
            &&& s2 == s1
            &&& count_rows(s2, r.key) == 1
        }),
{
    let (l1, s1, o1) = step(l, s, r, t1);
    assert(l1[l.len() as int] == entry_of(r, t1));
    assert(holds(l1, r.key, checksum_of(r.attributes)));
    assert(s1.drop_last() =~= s);
    lemma_consistent_absent(l, s, r.key);
}

/// A key written once and then offered with other content is a conflict,
/// and the store keeps only the first write.
pub proof fn lemma_conflict(
    l: Seq<EntryView>,
    s: Seq<RowView>,
    r1: RecordView,
    r2: RecordView,
    t1: u64,
    t2: u64,
)
    requires
        keys_unique(l),
        !has_key(l, r1.key),
        r2.key == r1.key,
        checksum_of(r2.attributes) != checksum_of(r1.attributes),
    ensures
        ({
            let (l1, s1, o1) = step(l, s, r1, t1);
            let (l2, s2, o2) = step(l1, s1, r2, t2);
            &&& o1 == ApplyOutcome::Applied
            &&& o2 == ApplyOutcome::Conflict
            &&& s1 == s.push(row_of(r1, t1))
            &&& s2 == s1
            &&& l2 == l1
        }),
{
    let (l1, s1, o1) = step(l, s, r1, t1);
    assert(l1[l.len() as int] == entry_of(r1, t1));
    assert(has_key(l1, r2.key));
    assert(!holds(l1, r2.key, checksum_of(r2.attributes))) by {
        if holds(l1, r2.key, checksum_of(r2.attributes)) {
            let i = choose|i: int|
                0 <= i < l1.len() && l1[i].key == r2.key && l1[i].checksum == checksum_of(
                    r2.attributes,
                );
            if i < l.len() {
                assert(l[i].key == r1.key);
            }
        }
    }
}

pub open spec fn extends(l1: Seq<EntryView>, l: Seq<EntryView>) -> bool {
    l.len() <= l1.len() && forall|i: int| 0 <= i < l.len() ==> l1[i] == l[i]
}

proof fn lemma_extends_keeps(l: Seq<EntryView>, l1: Seq<EntryView>, k: Seq<char>, c: u64)
    requires
        keys_unique(l1),
        extends(l1, l),
        has_key(l, k),
    ensures
        has_key(l1, k),
        holds(l1, k, c) == holds(l, k, c),
{
    let j = choose|j: int| 0 <= j < l.len() && l[j].key == k;
    assert(l1[j].key == k);
    if holds(l1, k, c) {
        let i = choose|i: int| 0 <= i < l1.len() && l1[i].key == k && l1[i].checksum == c;
        assert(i == j);
        assert(l[i].checksum == c);
    }
    if holds(l, k, c) {
        let i = choose|i: int| 0 <= i < l.len() && l[i].key == k && l[i].checksum == c;
        assert(l1[i] == l[i]);
    }
}

proof fn lemma_step_all_facts(l: Seq<EntryView>, s: Seq<RowView>, rs: Seq<RecordView>, t: u64)
    requires
        keys_unique(l),
    ensures
        ({
            let (l1, s1, o) = step_all(l, s, rs, t);
            &&& keys_unique(l1)
            &&& extends(l1, l)
            &&& o.len() == rs.len()
            &&& forall|i: int|
                0 <= i < rs.len() ==> has_key(l1, #[trigger] rs[i].key) && (holds(
                    l1,
                    rs[i].key,
                    checksum_of(rs[i].attributes),
                ) <==> o[i] != ApplyOutcome::Conflict)
        }),
    decreases rs.len(),
{
    if rs.len() > 0 {
        let rs0 = rs.drop_last();
        lemma_step_all_facts(l, s, rs0, t);
        let (la, sa, oa) = step_all(l, s, rs0, t);
        let r = rs.last();
        let (l1, s1, o) = step(la, sa, r, t);
        let cs = checksum_of(r.attributes);
        if outcome_of(la, r) == ApplyOutcome::Applied {
            assert(l1[la.len() as int] == entry_of(r, t));
            assert(keys_unique(l1)) by {
                assert forall|i: int, j: int| 0 <= i < j < l1.len() implies l1[i].key
                    != l1[j].key by {
                    if j == la.len() {
                        assert(la[i].key == l1[i].key);
                    }
                }
            }
            assert(holds(l1, r.key, cs));
        }
        assert(extends(l1, la));
        assert forall|i: int| 0 <= i < rs.len() implies has_key(l1, #[trigger] rs[i].key) && (
        holds(l1, rs[i].key, checksum_of(rs[i].attributes)) <==> step_all(l, s, rs, t).2[i]
            != ApplyOutcome::Conflict) by {
            if i < rs0.len() {
                assert(rs[i] == rs0[i]);
                lemma_extends_keeps(la, l1, rs[i].key, checksum_of(rs[i].attributes));
            } else if outcome_of(la, r) != ApplyOutcome::Applied {
                assert(rs[i] == r);
            } else {
                assert(rs[i] == r);
            }
        }
    }
}

proof fn lemma_replay_all(l: Seq<EntryView>, s: Seq<RowView>, rs: Seq<RecordView>, t: u64)
    requires
        forall|i: int| 0 <= i < rs.len() ==> has_key(l, #[trigger] rs[i].key),
    ensures
        ({
            let (l2, s2, o) = step_all(l, s, rs, t);
            &&& l2 == l
            &&& s2 == s
            &&& o.len() == rs.len()
            &&& forall|i: int|
                0 <= i < rs.len() ==> #[trigger] o[i] == if holds(
                    l,
                    rs[i].key,
                    checksum_of(rs[i].attributes),
                ) {
                    ApplyOutcome::Skipped
                } else {
                    ApplyOutcome::Conflict
                }
        }),
    decreases rs.len(),
{
    if rs.len() > 0 {
        let rs0 = rs.drop_last();
        assert forall|i: int| 0 <= i < rs0.len() implies has_key(l, #[trigger] rs0[i].key) by {
            assert(rs0[i] == rs[i]);
        }
        lemma_replay_all(l, s, rs0, t);
        assert(has_key(l, rs[rs.len() - 1].key));
        let o = step_all(l, s, rs, t).2;
        assert forall|i: int| 0 <= i < rs.len() implies #[trigger] o[i] == if holds(
            l,
            rs[i].key,
            checksum_of(rs[i].attributes),
        ) {
            ApplyOutcome::Skipped
        } else {
            ApplyOutcome::Conflict
        } by {
            if i < rs0.len() {
                assert(rs0[i] == rs[i]);
            }
        }
    }
}

/// Re-applying a batch that was already applied (a restart before the commit)
/// writes nothing: every record that was applied or skipped is now skipped,
/// and a conflict stays a conflict.
pub proof fn lemma_replay(l: Seq<EntryView>, s: Seq<RowView>, rs: Seq<RecordView>, t1: u64, t2: u64)
    requires
        keys_unique(l),
    ensures
        ({
            let (l1, s1, o1) = step_all(l, s, rs, t1);
            let (l2, s2, o2) = step_all(l1, s1, rs, t2);
            &&& l2 == l1
            &&& s2 == s1
            &&& o2.len() == o1.len()
            &&& forall|i: int|
                0 <= i < o1.len() ==> #[trigger] o2[i] == if o1[i] == ApplyOutcome::Conflict {
                    ApplyOutcome::Conflict
                } else {
                    ApplyOutcome::Skipped
                }
        }),
{
    lemma_step_all_facts(l, s, rs, t1);
    let (l1, s1, o1) = step_all(l, s, rs, t1);
    lemma_replay_all(l1, s1, rs, t2);
}

/// Records with distinct keys, none of them ledgered yet, are all applied,
/// and reach the ledger and the store in the order of the batch.
pub proof fn lemma_in_order(l: Seq<EntryView>, s: Seq<RowView>, rs: Seq<RecordView>, t: u64)
    requires
        keys_unique(l),
        forall|i: int| 0 <= i < rs.len() ==> !has_key(l, #[trigger] rs[i].key),
        forall|i: int, j: int| 0 <= i < j < rs.len() ==> rs[i].key != rs[j].key,
    ensures
        ({
            let (l1, s1, o) = step_all(l, s, rs, t);
            &&& l1 == l + rs.map_values(|r: RecordView| entry_of(r, t))
            &&& s1 == s + rs.map_values(|r: RecordView| row_of(r, t))
            &&& o.len() == rs.len()
            &&& forall|i: int| 0 <= i < rs.len() ==> #[trigger] o[i] == ApplyOutcome::Applied
        }),
    decreases rs.len(),
{
    if rs.len() == 0 {
        assert(l + rs.map_values(|r: RecordView| entry_of(r, t)) =~= l);
        assert(s + rs.map_values(|r: RecordView| row_of(r, t)) =~= s);
    } else {
        let rs0 = rs.drop_last();
        assert forall|i: int| 0 <= i < rs0.len() implies !has_key(l, #[trigger] rs0[i].key) by {
            assert(rs0[i] == rs[i]);
        }
        lemma_in_order(l, s, rs0, t);
        let (la, sa, oa) = step_all(l, s, rs0, t);
        let r = rs.last();
        let e = rs0.map_values(|r: RecordView| entry_of(r, t));
        assert(!has_key(la, r.key)) by {
            if has_key(la, r.key) {
                let i = choose|i: int| 0 <= i < la.len() && la[i].key == r.key;
                if i < l.len() {
                    assert(la[i] == l[i]);
                    assert(!has_key(l, rs[rs.len() - 1].key));
                } else {
                    assert(la[i] == e[i - l.len()]);
                    assert(rs0[i - l.len()] == rs[i - l.len()]);
                }
            }
        }
        assert(l + rs.map_values(|r: RecordView| entry_of(r, t)) =~= la.push(entry_of(r, t)));
        assert(s + rs.map_values(|r: RecordView| row_of(r, t)) =~= sa.push(row_of(r, t)));
    }
}

} // verus!
