use vstd::prelude::*;
use vstd::string::*;
use vstd::wrapping::u64_specs;
use crate::codec::{pairs_text, push_pairs};
use crate::record::{attrs_view, Record, RecordView};

verus! {

pub const FNV_OFFSET: u64 = 0xcbf2_9ce4_8422_2325;

pub const FNV_PRIME: u64 = 0x0000_0100_0000_01b3;

/// 64-bit FNV-1a over the code points of a text.
pub open spec fn fnv(s: Seq<char>) -> u64
    decreases s.len(),
{
    if s.len() == 0 {
        FNV_OFFSET
    } else {
        u64_specs::wrapping_mul(fnv(s.drop_last()) ^ (s.last() as u32 as u64), FNV_PRIME)
    }
}

/// The checksum of an attribute list: the hash of its wire text.
pub open spec fn checksum_of(a: Seq<(Seq<char>, Seq<char>)>) -> u64 {
    fnv(pairs_text(a))
}

pub fn checksum(attributes: &Vec<(String, String)>) -> (r: u64)
    ensures
        r == checksum_of(attrs_view(attributes@)),
{
    let mut text = String::new();
    push_pairs(&mut text, attributes);
    assert(text@ =~= pairs_text(attrs_view(attributes@)));
    let s = text.as_str();
    let n = s.unicode_len();
    let mut h: u64 = FNV_OFFSET;
    let mut i: usize = 0;
    assert(s@.take(0) =~= Seq::<char>::empty());
    while i < n
        invariant
            n == s@.len(),
            i <= n,
            h == fnv(s@.take(i as int)),
        decreases n - i,
    {
        let c = s.get_char(i);
        h = (h ^ (c as u32 as u64)).wrapping_mul(FNV_PRIME);
        assert(s@.take(i + 1).drop_last() =~= s@.take(i as int));
        i = i + 1;
    }
    assert(s@.take(n as int) =~= s@);
    h
}

/// Copies an attribute list pair by pair.
pub fn copy_attributes(a: &Vec<(String, String)>) -> (r: Vec<(String, String)>)
    ensures
        attrs_view(r@) == attrs_view(a@),
{
    let mut r: Vec<(String, String)> = Vec::new();
    let mut i: usize = 0;
    while i < a.len()
        invariant
            i <= a@.len(),
            attrs_view(r@) == attrs_view(a@).take(i as int),
        decreases a@.len() - i,
    {
        let ghost before = r@;
        let k = a[i].0.clone();
        let v = a[i].1.clone();
        r.push((k, v));
        assert(r@ == before.push((k, v)));
        assert(attrs_view(r@) =~= attrs_view(before).push((a@[i as int].0@, a@[i as int].1@)));
        i = i + 1;
        assert(attrs_view(r@) =~= attrs_view(a@).take(i as int));
    }
    assert(attrs_view(a@).take(a@.len() as int) =~= attrs_view(a@));
    r
}

/// The durable note that a key has been written to the store.
#[derive(Debug)]
pub struct LedgerEntry {
    pub key: String,
    pub applied_at: u64,
    pub checksum: u64,
}

pub struct EntryView {
    pub key: Seq<char>,
    pub applied_at: u64,
    pub checksum: u64,
}

impl View for LedgerEntry {
    type V = EntryView;

    open spec fn view(&self) -> EntryView {
        EntryView { key: self.key@, applied_at: self.applied_at, checksum: self.checksum }
    }
}

/// A row of the persistent store, written once per ledgered record.
#[derive(Debug)]
pub struct Row {
    pub key: String,
    pub attributes: Vec<(String, String)>,
    pub checksum: u64,
    pub applied_at: u64,
}

pub struct RowView {
    pub key: Seq<char>,
    pub attributes: Seq<(Seq<char>, Seq<char>)>,
    pub checksum: u64,
    pub applied_at: u64,
}

impl View for Row {
    type V = RowView;

    open spec fn view(&self) -> RowView {
        RowView {
            key: self.key@,
            attributes: attrs_view(self.attributes@),
            checksum: self.checksum,
            applied_at: self.applied_at,
        }
    }
}

/// The result of offering a record to the ledger.
#[derive(Debug, Clone, Copy, PartialEq, Eq, Structural)]
pub enum ApplyOutcome {
    /// The key was new: the row was written and the key ledgered.
    Applied,
    /// The key was ledgered with the same checksum: a redelivery.
    Skipped,
    /// The key was ledgered with another checksum: the key was reused.
    Conflict,
}

pub open spec fn has_key(l: Seq<EntryView>, k: Seq<char>) -> bool {
    exists|i: int| 0 <= i < l.len() && l[i].key == k
}

pub open spec fn holds(l: Seq<EntryView>, k: Seq<char>, c: u64) -> bool {
    exists|i: int| 0 <= i < l.len() && l[i].key == k && l[i].checksum == c
}

pub open spec fn keys_unique(l: Seq<EntryView>) -> bool {
    forall|i: int, j: int| 0 <= i < j < l.len() ==> l[i].key != l[j].key
}

/// The ledger and the store hold the same keys, in the same order.
pub open spec fn consistent(l: Seq<EntryView>, s: Seq<RowView>) -> bool {
    &&& l.len() == s.len()
    &&& forall|i: int| 0 <= i < l.len() ==> s[i].key == l[i].key && s[i].checksum == l[i].checksum
}

pub open spec fn outcome_of(l: Seq<EntryView>, r: RecordView) -> ApplyOutcome {
    if !has_key(l, r.key) {
        ApplyOutcome::Applied
    } else if holds(l, r.key, checksum_of(r.attributes)) {
        ApplyOutcome::Skipped
    } else {
        ApplyOutcome::Conflict
    }
}

pub open spec fn entry_of(r: RecordView, now: u64) -> EntryView {
    EntryView { key: r.key, applied_at: now, checksum: checksum_of(r.attributes) }
}

pub open spec fn row_of(r: RecordView, now: u64) -> RowView {
    RowView {
        key: r.key,
        attributes: r.attributes,
        checksum: checksum_of(r.attributes),
        applied_at: now,
    }
}

/// Offering record `r` at time `now` to a ledger `l` over a store `s`: the
/// next ledger, the next store and the outcome.
pub open spec fn step(l: Seq<EntryView>, s: Seq<RowView>, r: RecordView, now: u64) -> (
    Seq<EntryView>,
    Seq<RowView>,
    ApplyOutcome,
) {
    if outcome_of(l, r) == ApplyOutcome::Applied {
        (l.push(entry_of(r, now)), s.push(row_of(r, now)), ApplyOutcome::Applied)
    } else {
        (l, s, outcome_of(l, r))
    }
}

/// How many rows of `s` hold key `k`.
pub open spec fn count_rows(s: Seq<RowView>, k: Seq<char>) -> nat
    decreases s.len(),
{
    if s.len() == 0 {
        0
    } else {
        count_rows(s.drop_last(), k) + if s.last().key == k {
            1nat
        } else {
            0nat
        }
    }
}

/// A write to the persistent store failed.
#[derive(Debug, Clone, Copy, PartialEq, Eq, Structural)]
pub enum StoreWriteError {
    Failed,
}

/// The persistent store, as the rows written to it in order.
#[derive(Debug)]
pub struct Store {
    pub rows: Vec<Row>,
}

impl Store {
    pub open spec fn view_rows(&self) -> Seq<RowView> {
        self.rows@.map_values(|r: Row| r@)
    }

    pub fn new() -> (s: Store)
        ensures
            s.view_rows() == Seq::<RowView>::empty(),
    {
        let s = Store { rows: Vec::new() };
        assert(s.view_rows() =~= Seq::<RowView>::empty());
        s
    }

    /// Writes one row at the end of the store.
    pub fn insert(&mut self, row: Row)
        ensures
            final(self).view_rows() == old(self).view_rows().push(row@),
    {
        self.rows.push(row);
        assert(self.view_rows() =~= old(self).view_rows().push(row@));
    }

    /// How many rows hold key `key`.
    pub fn count_key(&self, key: &String) -> (r: usize)
        ensures
            r == count_rows(self.view_rows(), key@),
    {
        let ghost v = self.view_rows();
        let mut c: usize = 0;
        let mut i: usize = 0;
        assert(v.take(0) =~= Seq::<RowView>::empty());
        while i < self.rows.len()
            invariant
                v == self.view_rows(),
                i <= v.len(),
                v.len() == self.rows@.len(),
                c == count_rows(v.take(i as int), key@),
                c <= i,
            decreases v.len() - i,
        {
            assert(v.take(i + 1).drop_last() =~= v.take(i as int));
            if self.rows[i].key == *key {
                c = c + 1;
            }
            i = i + 1;
        }
        assert(v.take(v.len() as int) =~= v);
        c
    }
}

/// Which keys have been written, with the checksum of what was written.
#[derive(Debug)]
pub struct Ledger {
    pub entries: Vec<LedgerEntry>,
}

impl Ledger {
    pub open spec fn view_entries(&self) -> Seq<EntryView> {
        self.entries@.map_values(|e: LedgerEntry| e@)
    }

    pub open spec fn wf(&self) -> bool {
        keys_unique(self.view_entries())
    }

    pub fn new() -> (l: Ledger)
        ensures
            l.view_entries() == Seq::<EntryView>::empty(),
            l.wf(),
    {
        let l = Ledger { entries: Vec::new() };
        assert(l.view_entries() =~= Seq::<EntryView>::empty());
        l
    }

    /// The position of the entry for `key`, if it is ledgered.
    pub fn find(&self, key: &String) -> (r: Option<usize>)
        ensures
            match r {
                Some(i) => i < self.entries@.len() && self.view_entries()[i as int].key == key@,
                None => !has_key(self.view_entries(), key@),
            },
    {
        let mut i: usize = 0;
        while i < self.entries.len()
            invariant
                i <= self.entries@.len(),
                forall|j: int| 0 <= j < i ==> self.view_entries()[j].key != key@,
            decreases self.entries@.len() - i,
        {
            if self.entries[i].key == *key {
                return Some(i);
            }
            i = i + 1;
        }
        None
    }

    /// What offering `rec` would give, without writing anything.
    pub fn check(&self, rec: &Record) -> (r: ApplyOutcome)
        requires
            self.wf(),
        ensures
            r == outcome_of(self.view_entries(), rec@),
    {
        let cs = checksum(&rec.attributes);
        match self.find(&rec.key) {
            None => ApplyOutcome::Applied,
            Some(i) => {
                if self.entries[i].checksum == cs {
                    ApplyOutcome::Skipped
                } else {
                    assert(!holds(self.view_entries(), rec@.key, cs));
                    ApplyOutcome::Conflict
                }
            },
        }
    }

    /// Completes the offer of a record whose key `check` found new, once the
    /// store write was tried elsewhere: the key is ledgered only if the write
    /// went through, so a failed write leaves the record to be offered again.
    pub fn finish_apply(&mut self, rec: &Record, now: u64, written: Result<(), StoreWriteError>) -> (r:
        Result<ApplyOutcome, StoreWriteError>)
        requires
            old(self).wf(),
            outcome_of(old(self).view_entries(), rec@) == ApplyOutcome::Applied,
        ensures
            final(self).wf(),
            match written {
                Ok(()) => r == Ok::<ApplyOutcome, StoreWriteError>(ApplyOutcome::Applied)
                    && final(self).view_entries() == old(self).view_entries().push(
                    entry_of(rec@, now),
                ),
                Err(e) => r == Err::<ApplyOutcome, StoreWriteError>(e) && final(self).view_entries()
                    == old(self).view_entries(),
            },
    {
        match written {
            Ok(()) => {
                let cs = checksum(&rec.attributes);
                let entry = LedgerEntry { key: rec.key.clone(), applied_at: now, checksum: cs };
                self.entries.push(entry);
                assert(self.view_entries() =~= old(self).view_entries().push(entry_of(rec@, now)));
                Ok(ApplyOutcome::Applied)
            },
            Err(e) => Err(e),
        }
    }

    /// Offers a record: a new key is written to the store and then ledgered,
    /// a redelivery is skipped, a reused key is reported and nothing is written.
    pub fn try_apply(&mut self, store: &mut Store, rec: &Record, now: u64) -> (r: ApplyOutcome)
        requires
            old(self).wf(),
        ensures
            final(self).wf(),
            (final(self).view_entries(), final(store).view_rows(), r) == step(
                old(self).view_entries(),
                old(store).view_rows(),
                rec@,
                now,
            ),
    {
        let r = self.check(rec);
        if r == ApplyOutcome::Applied {
            let cs = checksum(&rec.attributes);
            let row = Row {
                key: rec.key.clone(),
                attributes: copy_attributes(&rec.attributes),
                checksum: cs,
                applied_at: now,
            };
            store.insert(row);
            let entry = LedgerEntry { key: rec.key.clone(), applied_at: now, checksum: cs };
            self.entries.push(entry);
            assert(self.view_entries() =~= old(self).view_entries().push(entry_of(rec@, now)));
        }
        r
    }
}

} // verus!
