use vstd::prelude::*;

use crate::lines::{foil_prefix, lemma_literal_roundtrip, literal_line, literal_line_spec,
    parse_line_spec, LineModel};
use crate::text::starts_with;

verus! {

// The List Applier's durable state, modelled: owned-count rows keyed by
// (catalog identifier, variant flag), the set of already-applied list
// fingerprints, and the decisions of one run. Application of a whole list is
// one atomic step: either the fingerprint check skips it, or every decision
// is counted and the fingerprint recorded.

/// One resolved line: a catalog identifier and the variant flag.
pub struct Decision {
    pub id: String,
    pub foil: bool,
}

/// The key of one owned-count row, and the model of one `Decision`.
#[verifier::ext_equal]
pub struct DKey {
    pub id: Seq<char>,
    pub foil: bool,
}

impl View for Decision {
    type V = DKey;

    open spec fn view(&self) -> DKey {
        DKey { id: self.id@, foil: self.foil }
    }
}

pub open spec fn dmodels_of(ds: Seq<Decision>) -> Seq<DKey> {
    ds.map_values(|d: Decision| d@)
}

/// How often `k` occurs among the decisions `ds`.
pub open spec fn occ(ds: Seq<DKey>, k: DKey) -> int {
    ds.filter(|x: DKey| x == k).len() as int
}

/// The counter of `k` in the map `m`, counting an absent key as 0.
pub open spec fn lookup(m: Map<DKey, int>, k: DKey) -> int {
    if m.dom().contains(k) {
        m[k]
    } else {
        0
    }
}

proof fn lemma_occ_snoc(ds: Seq<DKey>, x: DKey, k: DKey)
    ensures
        occ(ds.push(x), k) == occ(ds, k) + (if x == k {
            1int
        } else {
            0int
        }),
{
    reveal(Seq::filter);
    assert(ds.push(x).drop_last() =~= ds);
    assert(ds.push(x).last() == x);
    assert(ds.push(x).len() > 0);
}

/// Occurrence counts add over concatenation: the decisions of a resolved
/// prefix and of a replayed remainder together count exactly as the whole.
pub proof fn lemma_occ_concat(a: Seq<DKey>, b: Seq<DKey>, k: DKey)
    ensures
        occ(a + b, k) == occ(a, k) + occ(b, k),
    decreases b.len(),
{
    if b.len() == 0 {
        assert(a + b =~= a);
    } else {
        lemma_occ_concat(a, b.drop_last(), k);
        assert((a + b).drop_last() =~= a + b.drop_last());
        lemma_occ_snoc(a + b.drop_last(), b.last(), k);
        assert(a + b =~= (a + b.drop_last()).push(b.last()));
        lemma_occ_snoc(b.drop_last(), b.last(), k);
        assert(b =~= b.drop_last().push(b.last()));
    }
}

// ------------------------------------------------------------------
// The owned-count table.

/// One owned-count row: a catalog identifier, the variant flag, the amount.
pub struct CountRow {
    pub id: String,
    pub foil: bool,
    pub amount: usize,
}

pub open spec fn key_of_row(r: CountRow) -> DKey {
    DKey { id: r.id@, foil: r.foil }
}

/// No two rows share a key.
pub open spec fn rows_distinct(rows: Seq<CountRow>) -> bool {
    forall|i: int, j: int|
        0 <= i < j < rows.len() ==> key_of_row(#[trigger] rows[i]) != key_of_row(
            #[trigger] rows[j],
        )
}

/// Rows are well-formed: keys unique, and every amount at least 1 — a pair
/// never owned has no row.
pub open spec fn rows_wf(rows: Seq<CountRow>) -> bool {
    rows_distinct(rows) && forall|i: int| 0 <= i < rows.len() ==> (#[trigger] rows[i]).amount >= 1
}

/// The map a row sequence stands for.
pub open spec fn table_view(rows: Seq<CountRow>) -> Map<DKey, int> {
    Map::new(
        |k: DKey| exists|i: int| 0 <= i < rows.len() && key_of_row(#[trigger] rows[i]) == k,
        |k: DKey|
            {
                let i = choose|i: int| 0 <= i < rows.len() && key_of_row(#[trigger] rows[i]) == k;
                rows[i].amount as int
            },
    )
}

proof fn lemma_table_row(rows: Seq<CountRow>, i: int)
    requires
        rows_distinct(rows),
        0 <= i < rows.len(),
    ensures
        table_view(rows).dom().contains(key_of_row(rows[i])),
        table_view(rows)[key_of_row(rows[i])] == rows[i].amount as int,
{
    let k = key_of_row(rows[i]);
    let j = choose|j: int| 0 <= j < rows.len() && key_of_row(#[trigger] rows[j]) == k;
    assert(j == i);
}

/// The table of owned counts, with one row per (identifier, variant) pair.
pub struct CountsTable {
    rows: Vec<CountRow>,
}

impl CountsTable {
    /// Internal well-formedness: row keys are unique, and amounts positive.
    pub closed spec fn wf(&self) -> bool {
        rows_wf(self.rows@)
    }

    pub closed spec fn view(&self) -> Map<DKey, int> {
        table_view(self.rows@)
    }

    /// The rows of the table stand exactly for its map.
    pub open spec fn rows_match(&self, rows: Seq<CountRow>) -> bool {
        &&& rows_distinct(rows)
        &&& forall|i: int|
            0 <= i < rows.len() ==> self@.dom().contains(key_of_row(#[trigger] rows[i]))
                && self@[key_of_row(rows[i])] == rows[i].amount as int
        &&& forall|k: DKey|
            self@.dom().contains(k) ==> exists|i: int|
                0 <= i < rows.len() && key_of_row(#[trigger] rows[i]) == k
    }

    /// A key stands in the table exactly when its counter is positive, and
    /// no counter is negative.
    pub proof fn lemma_positive(&self, k: DKey)
        requires
            self.wf(),
        ensures
            self@.dom().contains(k) <==> lookup(self@, k) >= 1,
            lookup(self@, k) >= 0,
    {
        if self@.dom().contains(k) {
            let i = choose|i: int|
                0 <= i < self.rows@.len() && key_of_row(#[trigger] self.rows@[i]) == k;
            lemma_table_row(self.rows@, i);
            assert(self.rows@[i].amount >= 1);
        }
    }

    pub fn new() -> (t: CountsTable)
        ensures
            t.wf(),
            t@ == Map::<DKey, int>::empty(),
    {
        let t = CountsTable { rows: Vec::new() };
        proof {
            assert(t@ =~= Map::<DKey, int>::empty());
        }
        t
    }

    /// The rows, for persisting or for display.
    pub fn entries(&self) -> (rows: &Vec<CountRow>)
        requires
            self.wf(),
        ensures
            self.rows_match(rows@),
    {
        proof {
            assert forall|i: int| 0 <= i < self.rows@.len() implies self@.dom().contains(
                key_of_row(#[trigger] self.rows@[i]),
            ) && self@[key_of_row(self.rows@[i])] == self.rows@[i].amount as int by {
                lemma_table_row(self.rows@, i);
            }
        }
        &self.rows
    }

    fn find_row(&self, id: &String, foil: bool) -> (r: Option<usize>)
        requires
            self.wf(),
        ensures
            match r {
                Some(i) => i < self.rows@.len() && key_of_row(self.rows@[i as int]) == (DKey {
                    id: id@,
                    foil,
                }),
                None => !self@.dom().contains(DKey { id: id@, foil }),
            },
    {
        let mut i: usize = 0;
        while i < self.rows.len()
            invariant
                i <= self.rows@.len(),
                forall|j: int| 0 <= j < i ==> key_of_row(#[trigger] self.rows@[j]) != (DKey {
                    id: id@,
                    foil,
                }),
            decreases self.rows@.len() - i,
        {
            if self.rows[i].id.eq(id) && self.rows[i].foil == foil {
                return Some(i);
            }
            i += 1;
        }
        proof {
            if self@.dom().contains(DKey { id: id@, foil }) {
                let j = choose|j: int|
                    0 <= j < self.rows@.len() && key_of_row(#[trigger] self.rows@[j]) == (DKey {
                        id: id@,
                        foil,
                    });
            }
        }
        None
    }

    /// The owned amount recorded for this (identifier, variant) pair; 0 when
    /// no row exists.
    pub fn get(&self, id: &String, foil: bool) -> (n: usize)
        requires
            self.wf(),
        ensures
            n as int == lookup(self@, DKey { id: id@, foil }),
    {
        match self.find_row(id, foil) {
            Some(i) => {
                proof {
                    lemma_table_row(self.rows@, i as int);
                }
                self.rows[i].amount
            },
            None => 0,
        }
    }

    /// Counts one more of this (identifier, variant) pair: a first
    /// occurrence inserts a row with amount 1, a repeat increments the row.
    pub fn bump(&mut self, id: &String, foil: bool)
        requires
            old(self).wf(),
            lookup(old(self)@, DKey { id: id@, foil }) < usize::MAX as int,
        ensures
            final(self).wf(),
            final(self)@ == old(self)@.insert(
                DKey { id: id@, foil },
                lookup(old(self)@, DKey { id: id@, foil }) + 1,
            ),
    {
        let ghost k = DKey { id: id@, foil };
        let ghost old_rows = self.rows@;
        match self.find_row(id, foil) {
            Some(i) => {
                proof {
                    lemma_table_row(self.rows@, i as int);
                }
                let amount = self.rows[i].amount + 1;
                let row = CountRow { id: id.clone(), foil, amount };
                self.rows[i] = row;
                proof {
                    assert(rows_wf(self.rows@)) by {
                        assert(forall|j: int|
                            0 <= j < self.rows@.len() && j != i ==> self.rows@[j]
                                == old_rows[j]);
                        assert(key_of_row(self.rows@[i as int]) == key_of_row(
                            old_rows[i as int],
                        ));
                        assert(self.rows@[i as int].amount >= 1);
                    }
                    assert(self@ =~= old(self)@.insert(k, lookup(old(self)@, k) + 1)) by {
                        assert forall|k2: DKey| self@.dom().contains(k2) <==> old(
                            self,
                        )@.dom().contains(k2) || k2 == k by {
                            if self@.dom().contains(k2) {
                                let j = choose|j: int|
                                    0 <= j < self.rows@.len() && key_of_row(
                                        #[trigger] self.rows@[j],
                                    ) == k2;
                                if j != i {
                                    assert(key_of_row(old_rows[j]) == k2);
                                }
                            }
                            if old(self)@.dom().contains(k2) {
                                let j = choose|j: int|
                                    0 <= j < old_rows.len() && key_of_row(
                                        #[trigger] old_rows[j],
                                    ) == k2;
                                assert(key_of_row(self.rows@[j]) == k2);
                            }
                        }
                        assert forall|k2: DKey| self@.dom().contains(k2) implies self@[k2]
                            == old(self)@.insert(k, lookup(old(self)@, k) + 1)[k2] by {
                            let j = choose|j: int|
                                0 <= j < self.rows@.len() && key_of_row(
                                    #[trigger] self.rows@[j],
                                ) == k2;
                            lemma_table_row(self.rows@, j);
                            if k2 == k {
                                assert(j == i);
                            } else {
                                assert(key_of_row(old_rows[j]) == k2);
                                lemma_table_row(old_rows, j);
                            }
                        }
                    }
                }
            },
            None => {
                let row = CountRow { id: id.clone(), foil, amount: 1 };
                self.rows.push(row);
                proof {
                    assert(rows_wf(self.rows@)) by {
                        assert(forall|j: int|
                            0 <= j < old_rows.len() ==> self.rows@[j] == old_rows[j]);
                        assert(key_of_row(self.rows@[old_rows.len() as int]) == k);
                        assert(self.rows@[old_rows.len() as int].amount >= 1);
                        if exists|j: int|
                            0 <= j < old_rows.len() && key_of_row(#[trigger] old_rows[j]) == k {
                            let j = choose|j: int|
                                0 <= j < old_rows.len() && key_of_row(#[trigger] old_rows[j])
                                    == k;
                            assert(old(self)@.dom().contains(k));
                        }
                    }
                    assert(self@ =~= old(self)@.insert(k, lookup(old(self)@, k) + 1)) by {
                        assert forall|k2: DKey| self@.dom().contains(k2) <==> old(
                            self,
                        )@.dom().contains(k2) || k2 == k by {
                            if self@.dom().contains(k2) {
                                let j = choose|j: int|
                                    0 <= j < self.rows@.len() && key_of_row(
                                        #[trigger] self.rows@[j],
                                    ) == k2;
                                if j < old_rows.len() {
                                    assert(key_of_row(old_rows[j]) == k2);
                                } else {
                                    assert(k2 == k);
                                }
                            }
                            if old(self)@.dom().contains(k2) {
                                let j = choose|j: int|
                                    0 <= j < old_rows.len() && key_of_row(
                                        #[trigger] old_rows[j],
                                    ) == k2;
                                assert(key_of_row(self.rows@[j]) == k2);
                            }
                            if k2 == k {
                                assert(key_of_row(self.rows@[old_rows.len() as int]) == k);
                            }
                        }
                        assert forall|k2: DKey| self@.dom().contains(k2) implies self@[k2]
                            == old(self)@.insert(k, lookup(old(self)@, k) + 1)[k2] by {
                            let j = choose|j: int|
                                0 <= j < self.rows@.len() && key_of_row(
                                    #[trigger] self.rows@[j],
                                ) == k2;
                            lemma_table_row(self.rows@, j);
                            if k2 == k {
                                assert(j == old_rows.len() as int);
                            } else {
                                assert(j < old_rows.len());
                                assert(key_of_row(old_rows[j]) == k2);
                                lemma_table_row(old_rows, j);
                            }
                        }
                    }
                }
            },
        }
    }
}

// ------------------------------------------------------------------
// The applied-fingerprints set.

/// The views of a sequence of byte vectors, as a set.
pub open spec fn uid_views_of(s: Seq<Vec<u8>>) -> Set<Seq<u8>> {
    s.map_values(|v: Vec<u8>| v@).to_set()
}

/// The durable set of list fingerprints already applied.
pub struct AppliedSet {
    pub uids: Vec<Vec<u8>>,
}

impl View for AppliedSet {
    type V = Set<Seq<u8>>;

    open spec fn view(&self) -> Set<Seq<u8>> {
        uid_views_of(self.uids@)
    }
}

fn bytes_eq(a: &Vec<u8>, b: &Vec<u8>) -> (r: bool)
    ensures
        r == (a@ == b@),
{
    if a.len() != b.len() {
        return false;
    }
    let mut i: usize = 0;
    while i < a.len()
        invariant
            a@.len() == b@.len(),
            i <= a@.len(),
            forall|j: int| 0 <= j < i ==> a@[j] == b@[j],
        decreases a@.len() - i,
    {
        if a[i] != b[i] {
            return false;
        }
        i += 1;
    }
    proof {
        assert(a@ =~= b@);
    }
    true
}

proof fn lemma_uid_views_push(s: Seq<Vec<u8>>, x: Vec<u8>)
    ensures
        uid_views_of(s.push(x)) == uid_views_of(s).insert(x@),
{
    let m = s.map_values(|v: Vec<u8>| v@);
    let mp = s.push(x).map_values(|v: Vec<u8>| v@);
    assert(mp =~= m.push(x@));
    assert forall|y: Seq<u8>| mp.to_set().contains(y) <==> m.to_set().insert(x@).contains(
        y,
    ) by {
        if mp.contains(y) {
            let j = choose|j: int| 0 <= j < mp.len() && #[trigger] mp[j] == y;
            if j < m.len() {
                assert(m[j] == y);
            } else {
                assert(y == x@);
            }
        }
        if m.contains(y) {
            let j = choose|j: int| 0 <= j < m.len() && #[trigger] m[j] == y;
            assert(mp[j] == y);
        }
        if y == x@ {
            assert(mp[m.len() as int] == y);
        }
    }
    assert(uid_views_of(s.push(x)) =~= uid_views_of(s).insert(x@));
}

impl AppliedSet {
    pub fn new() -> (s: AppliedSet)
        ensures
            s@ == Set::<Seq<u8>>::empty(),
    {
        let s = AppliedSet { uids: Vec::new() };
        proof {
            assert(s@ =~= Set::<Seq<u8>>::empty());
        }
        s
    }

    /// Was this fingerprint recorded as applied?
    pub fn contains(&self, uid: &Vec<u8>) -> (r: bool)
        ensures
            r == self@.contains(uid@),
    {
        let mut i: usize = 0;
        while i < self.uids.len()
            invariant
                i <= self.uids@.len(),
                forall|j: int| 0 <= j < i ==> self.uids@[j]@ != uid@,
            decreases self.uids@.len() - i,
        {
            if bytes_eq(&self.uids[i], uid) {
                assert(self.uids@.map_values(|v: Vec<u8>| v@)[i as int] == uid@);
                return true;
            }
            i += 1;
        }
        proof {
            let m = self.uids@.map_values(|v: Vec<u8>| v@);
            if m.contains(uid@) {
                let j = choose|j: int| 0 <= j < m.len() && #[trigger] m[j] == uid@;
                assert(self.uids@[j]@ == uid@);
            }
        }
        false
    }

    /// Records a fingerprint as applied.
    pub fn insert(&mut self, uid: Vec<u8>)
        ensures
            final(self)@ == old(self)@.insert(uid@),
    {
        proof {
            lemma_uid_views_push(self.uids@, uid);
        }
        self.uids.push(uid);
    }
}

// ------------------------------------------------------------------
// One run's record of decisions, and the resume-log body.

/// The decisions of one list application, in order, under the list's
/// fingerprint.
pub struct ListRun {
    pub uid: Vec<u8>,
    pub decisions: Vec<Decision>,
}

impl ListRun {
    pub fn new(uid: Vec<u8>) -> (r: ListRun)
        ensures
            r.uid@ == uid@,
            r.decisions@ =~= Seq::<Decision>::empty(),
    {
        ListRun { uid, decisions: Vec::new() }
    }

    /// Appends one resolved line's decision.
    pub fn record(&mut self, id: String, foil: bool)
        ensures
            final(self).uid == old(self).uid,
            final(self).decisions@ == old(self).decisions@.push(Decision { id, foil }),
    {
        self.decisions.push(Decision { id, foil });
    }

    /// The literal-identifier records of every decision made so far, in
    /// order — the body the resume log holds for the resolved prefix.
    pub fn literal_lines(&self) -> (r: Vec<String>)
        ensures
            r@.len() == self.decisions@.len(),
            forall|i: int|
                0 <= i < r@.len() ==> #[trigger] r@[i]@ == literal_line_spec(
                    self.decisions@[i].id@,
                    self.decisions@[i].foil,
                ),
    {
        let mut r: Vec<String> = Vec::new();
        let mut i: usize = 0;
        while i < self.decisions.len()
            invariant
                i <= self.decisions@.len(),
                r@.len() == i,
                forall|j: int|
                    0 <= j < i ==> #[trigger] r@[j]@ == literal_line_spec(
                        self.decisions@[j].id@,
                        self.decisions@[j].foil,
                    ),
            decreases self.decisions@.len() - i,
        {
            let d = &self.decisions[i];
            let line = literal_line(d.id.as_str(), d.foil);
            r.push(line);
            i += 1;
        }
        r
    }
}

/// Aggregates one run's decisions into a counts table: the counter of each
/// (identifier, variant) pair is exactly the number of times the run
/// resolved to it.
pub fn tally(run: &ListRun) -> (t: CountsTable)
    ensures
        t.wf(),
        forall|k: DKey| lookup(t@, k) == occ(dmodels_of(run.decisions@), k),
{
    let ghost ds = dmodels_of(run.decisions@);
    let mut t = CountsTable::new();
    let mut i: usize = 0;
    proof {
        assert(ds.take(0) =~= Seq::<DKey>::empty());
        assert forall|k: DKey| lookup(t@, k) == occ(ds.take(0), k) by {
            reveal(Seq::filter);
        }
    }
    while i < run.decisions.len()
        invariant
            i <= run.decisions@.len(),
            ds == dmodels_of(run.decisions@),
            t.wf(),
            forall|k: DKey| lookup(t@, k) == occ(ds.take(i as int), k),
        decreases run.decisions@.len() - i,
    {
        let d = &run.decisions[i];
        let ghost k = DKey { id: d.id@, foil: d.foil };
        let ghost pre = t@;
        proof {
            lemma_occ_bounds(ds.take(i as int), k);
            assert(ds.take(i as int).len() == i as int);
            assert(lookup(pre, k) == occ(ds.take(i as int), k));
        }
        t.bump(&d.id, d.foil);
        proof {
            assert(t@ == pre.insert(k, lookup(pre, k) + 1));
            assert(ds[i as int] == k);
            assert forall|k2: DKey| lookup(t@, k2) == occ(ds.take(i + 1), k2) by {
                lemma_occ_take_snoc(ds, i as int, k2);
                assert(lookup(pre, k2) == occ(ds.take(i as int), k2));
                if k2 == k {
                    assert(lookup(t@, k2) == lookup(pre, k) + 1);
                } else {
                    assert(t@.dom().contains(k2) == pre.dom().contains(k2));
                    if pre.dom().contains(k2) {
                        assert(t@[k2] == pre[k2]);
                    }
                }
            }
        }
        i += 1;
    }
    proof {
        assert(ds.take(ds.len() as int) =~= ds);
        assert forall|k: DKey| lookup(t@, k) == occ(ds, k) by {
            assert(lookup(t@, k) == occ(ds.take(run.decisions@.len() as int), k));
        }
    }
    t
}

// ------------------------------------------------------------------
// The durable store, modelled, and atomic application of one run.

/// The model of the durable store: the counter map and the applied set.
#[verifier::ext_equal]
pub struct StoreView {
    pub counts: Map<DKey, int>,
    pub applied: Set<Seq<u8>>,
}

/// The durable store: owned counts and applied fingerprints.
pub struct StoreModel {
    pub counts: CountsTable,
    pub applied: AppliedSet,
}

impl View for StoreModel {
    type V = StoreView;

    open spec fn view(&self) -> StoreView {
        StoreView { counts: self.counts@, applied: self.applied@ }
    }
}

/// The counter map after counting the decisions `ds` on top of `m`.
pub open spec fn add_counts(m: Map<DKey, int>, ds: Seq<DKey>) -> Map<DKey, int> {
    Map::new(
        |k: DKey| m.dom().contains(k) || ds.contains(k),
        |k: DKey| lookup(m, k) + occ(ds, k),
    )
}

/// What applying one list does to the store: a fingerprint already applied
/// and not confirmed for re-application changes nothing; otherwise every
/// decision is counted and the fingerprint is recorded, atomically.
pub open spec fn apply_spec(s: StoreView, uid: Seq<u8>, ds: Seq<DKey>, confirmed: bool) -> StoreView {
    if s.applied.contains(uid) && !confirmed {
        s
    } else {
        StoreView { counts: add_counts(s.counts, ds), applied: s.applied.insert(uid) }
    }
}

proof fn lemma_occ_take_snoc(ds: Seq<DKey>, i: int, k: DKey)
    requires
        0 <= i < ds.len(),
    ensures
        occ(ds.take(i + 1), k) == occ(ds.take(i), k) + (if ds[i] == k {
            1int
        } else {
            0int
        }),
{
    assert(ds.take(i + 1) =~= ds.take(i).push(ds[i]));
    lemma_occ_snoc(ds.take(i), ds[i], k);
}

proof fn lemma_occ_bounds(ds: Seq<DKey>, k: DKey)
    ensures
        0 <= occ(ds, k) <= ds.len(),
{
    ds.lemma_filter_len(|x: DKey| x == k);
}

/// Applies one run to the store. When the fingerprint is already applied
/// and the operator has not confirmed re-application, nothing changes and
/// the result is false; otherwise all decisions are counted, the
/// fingerprint is recorded, and the result is true.
pub fn apply_run(store: &mut StoreModel, run: &ListRun, confirmed: bool) -> (did: bool)
    requires
        old(store).counts.wf(),
        forall|k: DKey|
            lookup(old(store)@.counts, k) + dmodels_of(run.decisions@).len() < usize::MAX as int,
    ensures
        final(store).counts.wf(),
        final(store)@ == apply_spec(
            old(store)@,
            run.uid@,
            dmodels_of(run.decisions@),
            confirmed,
        ),
        did == !(old(store)@.applied.contains(run.uid@) && !confirmed),
{
    let ghost ds = dmodels_of(run.decisions@);
    if store.applied.contains(&run.uid) && !confirmed {
        proof {
            assert(store@ =~= apply_spec(old(store)@, run.uid@, ds, confirmed));
        }
        return false;
    }
    let mut i: usize = 0;
    proof {
        assert(ds.take(0) =~= Seq::<DKey>::empty());
        assert forall|k: DKey|
            lookup(store@.counts, k) == lookup(old(store)@.counts, k) + occ(
                ds.take(0),
                k,
            ) by {
            reveal(Seq::filter);
        }
    }
    while i < run.decisions.len()
        invariant
            i <= run.decisions@.len(),
            ds == dmodels_of(run.decisions@),
            store.counts.wf(),
            store.applied == old(store).applied,
            forall|k: DKey|
                lookup(old(store)@.counts, k) + ds.len() < usize::MAX as int,
            forall|k: DKey|
                lookup(store@.counts, k) == lookup(old(store)@.counts, k) + occ(
                    ds.take(i as int),
                    k,
                ),
        decreases run.decisions@.len() - i,
    {
        let d = &run.decisions[i];
        let ghost k = DKey { id: d.id@, foil: d.foil };
        let ghost pre = store@.counts;
        proof {
            lemma_occ_bounds(ds.take(i as int), k);
            assert(ds.take(i as int).len() == i as int);
            assert(lookup(pre, k) == lookup(old(store)@.counts, k) + occ(ds.take(i as int), k));
            assert(lookup(pre, k) < usize::MAX as int);
        }
        store.counts.bump(&d.id, d.foil);
        proof {
            assert(store@.counts == pre.insert(k, lookup(pre, k) + 1));
            assert(ds[i as int] == k);
            assert forall|k2: DKey|
                lookup(store@.counts, k2) == lookup(old(store)@.counts, k2) + occ(
                    ds.take(i + 1),
                    k2,
                ) by {
                lemma_occ_take_snoc(ds, i as int, k2);
                assert(lookup(pre, k2) == lookup(old(store)@.counts, k2) + occ(
                    ds.take(i as int),
                    k2,
                ));
                if k2 == k {
                    assert(lookup(store@.counts, k2) == lookup(pre, k) + 1);
                } else {
                    assert(store@.counts.dom().contains(k2) == pre.dom().contains(k2));
                    if pre.dom().contains(k2) {
                        assert(store@.counts[k2] == pre[k2]);
                    }
                }
            }
        }
        i += 1;
    }
    proof {
        assert(ds.take(ds.len() as int) =~= ds);
        assert forall|k: DKey|
            lookup(store@.counts, k) == lookup(old(store)@.counts, k) + occ(ds, k) by {
            assert(lookup(store@.counts, k) == lookup(old(store)@.counts, k) + occ(
                ds.take(run.decisions@.len() as int),
                k,
            ));
        }
        let ghost target = add_counts(old(store)@.counts, ds);
        assert forall|k: DKey| store@.counts.dom().contains(k) <==> target.dom().contains(
            k,
        ) by {
            lemma_occ_contains(ds, k);
            lemma_occ_bounds(ds, k);
            store.counts.lemma_positive(k);
            old(store).counts.lemma_positive(k);
            assert(lookup(store@.counts, k) == lookup(old(store)@.counts, k) + occ(ds, k));
            assert(target.dom().contains(k) == (old(store)@.counts.dom().contains(k)
                || ds.contains(k)));
        }
        assert forall|k: DKey| store@.counts.dom().contains(k) implies store@.counts[k]
            == target[k] by {
            lemma_occ_contains(ds, k);
            store.counts.lemma_positive(k);
            old(store).counts.lemma_positive(k);
            assert(target[k] == lookup(old(store)@.counts, k) + occ(ds, k));
        }
        assert(store@.counts =~= target);
    }
    store.applied.insert(run.uid.clone());
    proof {
        assert(store@ =~= apply_spec(old(store)@, run.uid@, ds, confirmed));
    }
    true
}

/// A key absent from the counter map can still have been counted: a key
/// occurs among the decisions exactly when its occurrence count is positive.
proof fn lemma_occ_contains(ds: Seq<DKey>, k: DKey)
    ensures
        ds.contains(k) <==> occ(ds, k) > 0,
    decreases ds.len(),
{
    reveal(Seq::filter);
    if ds.len() > 0 {
        lemma_occ_contains(ds.drop_last(), k);
        lemma_occ_snoc(ds.drop_last(), ds.last(), k);
        assert(ds.drop_last().push(ds.last()) =~= ds);
        if ds.contains(k) {
            let j = choose|j: int| 0 <= j < ds.len() && ds[j] == k;
            if j < ds.len() - 1 {
                assert(ds.drop_last()[j] == k);
                assert(ds.drop_last().contains(k));
            }
        }
        if occ(ds, k) > 0 {
            if ds.last() == k {
                assert(ds[ds.len() - 1] == k);
            } else {
                lemma_occ_bounds(ds.drop_last(), k);
                let j = choose|j: int| 0 <= j < ds.drop_last().len() && ds.drop_last()[j] == k;
                assert(ds[j] == k);
            }
        }
    }
}

// ------------------------------------------------------------------
// The laws of list application.

/// Idempotency: once a list has been applied, applying it again without the
/// operator confirming re-application changes nothing — whatever decisions
/// the second run would have made.
pub proof fn lemma_idempotency(
    s: StoreView,
    uid: Seq<u8>,
    ds1: Seq<DKey>,
    ds2: Seq<DKey>,
    c1: bool,
)
    ensures
        apply_spec(apply_spec(s, uid, ds1, c1), uid, ds2, false) == apply_spec(s, uid, ds1, c1),
{
    let s1 = apply_spec(s, uid, ds1, c1);
    assert(s1.applied.contains(uid));
}

/// Aggregation: applying a list whose decisions name one (identifier,
/// variant) pair N times, over a store where that pair's counter starts at
/// 0, leaves the counter at exactly N.
pub proof fn lemma_aggregation(
    s: StoreView,
    uid: Seq<u8>,
    ds: Seq<DKey>,
    confirmed: bool,
    k: DKey,
)
    requires
        !(s.applied.contains(uid) && !confirmed),
        lookup(s.counts, k) == 0,
    ensures
        lookup(apply_spec(s, uid, ds, confirmed).counts, k) == occ(ds, k),
{
    lemma_occ_contains(ds, k);
}

/// Resume correctness: when a run aborts after the decisions `done`, the
/// resume log holds one literal-identifier record per decision and the
/// unprocessed lines verbatim. Each record parses back to exactly its
/// decision (so replay resolves it with no lookup and no prompt — the
/// operator is only asked about the remainder), and replaying the log —
/// `done` by literal records, the remainder resolving to `rest` — counts
/// exactly as the uninterrupted run would have.
pub proof fn lemma_resume_correctness(
    s: StoreView,
    uid: Seq<u8>,
    done: Seq<DKey>,
    rest: Seq<DKey>,
    confirmed: bool,
)
    requires
        forall|i: int|
            0 <= i < done.len() ==> ((#[trigger] done[i]).foil || !starts_with(
                done[i].id,
                foil_prefix(),
            )),
        !(s.applied.contains(uid) && !confirmed),
    ensures
        forall|i: int|
            0 <= i < done.len() ==> parse_line_spec(
                literal_line_spec((#[trigger] done[i]).id, done[i].foil),
            ) == (LineModel::Literal { id: done[i].id, foil: done[i].foil }),
        forall|k: DKey|
            lookup(apply_spec(s, uid, done + rest, confirmed).counts, k) == lookup(s.counts, k)
                + occ(done, k) + occ(rest, k),
{
    assert forall|i: int| 0 <= i < done.len() implies parse_line_spec(
        literal_line_spec((#[trigger] done[i]).id, done[i].foil),
    ) == (LineModel::Literal { id: done[i].id, foil: done[i].foil }) by {
        lemma_literal_roundtrip(done[i].id, done[i].foil);
    }
    assert forall|k: DKey|
        lookup(apply_spec(s, uid, done + rest, confirmed).counts, k) == lookup(s.counts, k) + occ(
            done,
            k,
        ) + occ(rest, k) by {
        lemma_occ_concat(done, rest, k);
        lemma_occ_contains(done + rest, k);
    }
}

} // verus!
