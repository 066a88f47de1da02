//! Work items and the work bundle builder: parsing output of the row reader
//! goes in, and a deduplicated bundle of surviving rows comes out, together
//! with the map of unique sentences that still need synthesis.

use vstd::prelude::*;
use crate::errors::GenError;
use crate::fingerprint::{
    field_views, fingerprint_row, fingerprint_sentence, output_filename, output_filename_of,
    row_fp, sentence_fp,
};
use crate::fpmap::FpMap;

verus! {

/// The fields of every row, as character sequences.
pub open spec fn rows_views(rows: Seq<Vec<String>>) -> Seq<Seq<Seq<char>>> {
    Seq::new(rows.len(), |i: int| field_views(rows[i]@))
}

/// One surviving input row: its 0-based source sequence number, its fields,
/// both fingerprints, and the audio filename derived from the sentence
/// fingerprint.
#[derive(Debug)]
pub struct WorkItem {
    pub seq: usize,
    pub record: Vec<String>,
    pub sentence_hash: u64,
    pub record_hash: u64,
    pub output_path: String,
}

impl WorkItem {
    /// The fields of this item's row, as character sequences.
    pub open spec fn row(&self) -> Seq<Seq<char>> {
        field_views(self.record@)
    }

    /// The fingerprints and the filename agree with the fields.
    pub open spec fn wf(&self) -> bool {
        &&& self.record@.len() >= 1
        &&& self.sentence_hash == sentence_fp(self.row())
        &&& self.record_hash == row_fp(self.row())
        &&& self.output_path@ == output_filename_of(self.sentence_hash)
    }

    /// The item stands for row number `i` with fields `row`.
    pub open spec fn is_for(&self, i: int, row: Seq<Seq<char>>) -> bool {
        &&& self.seq == i
        &&& self.row() == row
        &&& self.wf()
    }

    /// Builds the item for one accepted row: derives both fingerprints and
    /// the output filename; pure data transformation.
    pub fn new_from_record(seq: usize, record: Vec<String>) -> (wi: WorkItem)
        requires
            record@.len() >= 1,
        ensures
            wi.is_for(seq as int, field_views(record@)),
            wi.record@ == record@,
    {
        let sentence_hash = fingerprint_sentence(&record);
        let record_hash = fingerprint_row(&record);
        let output_path = output_filename(sentence_hash);
        WorkItem { seq, record, sentence_hash, record_hash, output_path }
    }
}

/// The set of row fingerprints already seen in this run. Only membership is
/// ever asked of it, so it keeps its elements in arrival order.
pub struct FpSet {
    elems: Vec<u64>,
}

impl View for FpSet {
    type V = Set<u64>;

    closed spec fn view(&self) -> Set<u64> {
        Set::new(|k: u64| exists|i: int| 0 <= i < self.elems@.len() && self.elems@[i] == k)
    }
}

impl FpSet {
    pub fn new() -> (s: Self)
        ensures
            s@ == Set::<u64>::empty(),
    {
        let s = FpSet { elems: Vec::new() };
        proof {
            assert(s@ =~= Set::<u64>::empty());
        }
        s
    }

    pub fn contains(&self, k: u64) -> (r: bool)
        ensures
            r == self@.contains(k),
    {
        let n = self.elems.len();
        let mut i: usize = 0;
        while i < n
            invariant
                0 <= i <= n,
                n == self.elems@.len(),
                forall|j: int| 0 <= j < i ==> self.elems@[j] != k,
            decreases n - i,
        {
            if self.elems[i] == k {
                return true;
            }
            i += 1;
        }
        false
    }

    pub fn insert(&mut self, k: u64)
        ensures
            final(self)@ == old(self)@.insert(k),
    {
        self.elems.push(k);
        proof {
            let oe = old(self).elems@;
            let ne = self.elems@;
            assert forall|x: u64| #[trigger] self@.contains(x) implies old(self)@.insert(
                k,
            ).contains(x) by {
                let i = choose|i: int| 0 <= i < ne.len() && ne[i] == x;
                if i < oe.len() {
                    assert(oe[i] == x);
                } else {
                    assert(x == k);
                }
            }
            assert forall|x: u64| #[trigger] old(self)@.insert(k).contains(x) implies self@.contains(
                x,
            ) by {
                if x == k {
                    assert(ne[ne.len() - 1] == k);
                } else {
                    let i = choose|i: int| 0 <= i < oe.len() && oe[i] == x;
                    assert(ne[i] == x);
                }
            }
            assert(self@ =~= old(self)@.insert(k));
        }
    }
}

/// Copies a row's fields one by one, so that the copy is known to hold the
/// same strings.
pub fn clone_fields(fields: &Vec<String>) -> (c: Vec<String>)
    ensures
        c@ == fields@,
{
    let n = fields.len();
    let mut c: Vec<String> = Vec::new();
    let mut i: usize = 0;
    while i < n
        invariant
            0 <= i <= n,
            n == fields@.len(),
            c@ == fields@.subrange(0, i as int),
        decreases n - i,
    {
        let s = &fields[i];
        c.push(s.clone());
        proof {
            assert(c@ =~= fields@.subrange(0, i + 1 as int));
        }
        i += 1;
    }
    proof {
        assert(c@ =~= fields@);
    }
    c
}

/// Rejects a source whose rows are not all non-empty, as the row reader owes
/// its callers.
pub fn validate_rows(rows: &Vec<Vec<String>>) -> (r: Result<(), GenError>)
    ensures
        r is Ok <==> (forall|i: int|
            0 <= i < rows@.len() ==> (#[trigger] rows@[i])@.len() >= 1),
        r is Err ==> r == Err::<(), GenError>(GenError::EmptyRow),
{
    let n = rows.len();
    let mut i: usize = 0;
    while i < n
        invariant
            0 <= i <= n,
            n == rows@.len(),
            forall|j: int| 0 <= j < i ==> (#[trigger] rows@[j])@.len() >= 1,
        decreases n - i,
    {
        if rows[i].is_empty() {
            return Err(GenError::EmptyRow);
        }
        i += 1;
    }
    Ok(())
}

/// All surviving work items plus the map from sentence fingerprint to the
/// representative sentence text that still needs synthesis.
#[derive(Debug)]
pub struct WorkBundle {
    pub needs_tts: FpMap<String>,
    pub work_items: Vec<WorkItem>,
}

impl WorkBundle {
    pub open spec fn wf(&self) -> bool {
        &&& self.needs_tts.wf()
        &&& forall|k: int| 0 <= k < self.work_items@.len() ==> (#[trigger] self.work_items@[k]).wf()
    }

    pub fn new() -> (b: Self)
        ensures
            b.wf(),
            b.work_items@ == Seq::<WorkItem>::empty(),
            b.needs_tts@ == Map::<u64, String>::empty(),
    {
        WorkBundle { needs_tts: FpMap::new(), work_items: Vec::new() }
    }

    /// Keeps the item for output; the first item of a given sentence
    /// fingerprint also claims the needs-synthesis entry for it.
    pub fn add_work_item(&mut self, wi: WorkItem)
        requires
            old(self).wf(),
            wi.wf(),
        ensures
            final(self).wf(),
            final(self).work_items@ == old(self).work_items@.push(wi),
            old(self).needs_tts@.contains_key(wi.sentence_hash) ==> final(self).needs_tts@ == old(
                self,
            ).needs_tts@,
            !old(self).needs_tts@.contains_key(wi.sentence_hash) ==> final(self).needs_tts@ == old(
                self,
            ).needs_tts@.insert(wi.sentence_hash, wi.record@[0]),
    {
        let s = &wi.record[0];
        let first = s.clone();
        self.needs_tts.insert_if_absent(wi.sentence_hash, first);
        self.work_items.push(wi);
    }
}

/// The row fingerprints of the rows accepted among the first `n`.
pub open spec fn seen_upto(rows: Seq<Seq<Seq<char>>>, skip: bool, on_disk: Seq<bool>, n: int) -> Set<
    u64,
>
    decreases n, 0int,
{
    if n <= 0 {
        Set::empty()
    } else if row_accepted(rows, skip, on_disk, n - 1) {
        seen_upto(rows, skip, on_disk, n - 1).insert(row_fp(rows[n - 1]))
    } else {
        seen_upto(rows, skip, on_disk, n - 1)
    }
}

/// A row is accepted exactly when its output file is not being skipped and
/// its row fingerprint was not seen among the earlier accepted rows.
pub open spec fn row_accepted(rows: Seq<Seq<Seq<char>>>, skip: bool, on_disk: Seq<bool>, i: int) -> bool
    decreases i, 1int,
{
    if 0 <= i < rows.len() {
        &&& !(skip && on_disk[i])
        &&& !seen_upto(rows, skip, on_disk, i).contains(row_fp(rows[i]))
    } else {
        false
    }
}

/// The indices of the accepted rows among the first `n`, in ascending order.
pub open spec fn accepted_upto(
    rows: Seq<Seq<Seq<char>>>,
    skip: bool,
    on_disk: Seq<bool>,
    n: int,
) -> Seq<int>
    decreases n,
{
    if n <= 0 {
        Seq::empty()
    } else if row_accepted(rows, skip, on_disk, n - 1) {
        accepted_upto(rows, skip, on_disk, n - 1).push(n - 1)
    } else {
        accepted_upto(rows, skip, on_disk, n - 1)
    }
}

/// The needs-synthesis map after the first `n` rows: the first accepted row
/// of each sentence fingerprint claims the entry with its sentence text.
pub open spec fn tts_upto(rows: Seq<Seq<Seq<char>>>, skip: bool, on_disk: Seq<bool>, n: int) -> Map<
    u64,
    Seq<char>,
>
    decreases n,
{
    if n <= 0 {
        Map::empty()
    } else {
        let prev = tts_upto(rows, skip, on_disk, n - 1);
        if row_accepted(rows, skip, on_disk, n - 1) && !prev.contains_key(
            sentence_fp(rows[n - 1]),
        ) {
            prev.insert(sentence_fp(rows[n - 1]), rows[n - 1][0])
        } else {
            prev
        }
    }
}

/// The needs-synthesis map holds exactly the bindings of the model, as
/// strings.
pub open spec fn models_tts(m: Map<u64, String>, t: Map<u64, Seq<char>>) -> bool {
    &&& m.dom() == t.dom()
    &&& forall|k: u64| #[trigger] t.contains_key(k) ==> m[k]@ == t[k]
}

/// Builds the bundle of one run: walks the rows in source order, drops a row
/// whose row fingerprint was already seen or — when `skip_existing` is set —
/// whose derived output file is already on disk, and groups the unique
/// sentences of the accepted rows for synthesis.
pub fn build_bundle(rows: Vec<Vec<String>>, skip_existing: bool, on_disk: Vec<bool>) -> (b:
    WorkBundle)
    requires
        on_disk@.len() == rows@.len(),
        forall|i: int| 0 <= i < rows@.len() ==> (#[trigger] rows@[i])@.len() >= 1,
    ensures
        b.wf(),
        ({
            let rv = rows_views(rows@);
            let n = rv.len() as int;
            let acc = accepted_upto(rv, skip_existing, on_disk@, n);
            &&& b.work_items@.len() == acc.len()
            &&& forall|k: int|
                0 <= k < acc.len() ==> (#[trigger] b.work_items@[k]).is_for(acc[k], rv[acc[k]])
            &&& models_tts(b.needs_tts@, tts_upto(rv, skip_existing, on_disk@, n))
        }),
{
    let ghost rv = rows_views(rows@);
    let mut seen = FpSet::new();
    let mut bundle = WorkBundle::new();
    let n = rows.len();
    let mut i: usize = 0;
    proof {
        assert(bundle.work_items@ =~= Seq::<WorkItem>::empty());
    }
    while i < n
        invariant
            0 <= i <= n,
            n == rows@.len(),
            on_disk@.len() == rows@.len(),
            forall|j: int| 0 <= j < rows@.len() ==> (#[trigger] rows@[j])@.len() >= 1,
            rv == rows_views(rows@),
            seen@ == seen_upto(rv, skip_existing, on_disk@, i as int),
            bundle.wf(),
            bundle.work_items@.len() == accepted_upto(rv, skip_existing, on_disk@, i as int).len(),
            forall|k: int|
                0 <= k < bundle.work_items@.len() ==> {
                    let acc = accepted_upto(rv, skip_existing, on_disk@, i as int);
                    (#[trigger] bundle.work_items@[k]).is_for(acc[k], rv[acc[k]])
                },
            models_tts(bundle.needs_tts@, tts_upto(rv, skip_existing, on_disk@, i as int)),
        decreases n - i,
    {
        let record = clone_fields(&rows[i]);
        let wi = WorkItem::new_from_record(i, record);
        proof {
            assert(rv[i as int] == field_views(rows@[i as int]@));
            assert(wi.is_for(i as int, rv[i as int]));
        }
        let dropped = (skip_existing && on_disk[i]) || seen.contains(wi.record_hash);
        proof {
            assert(row_accepted(rv, skip_existing, on_disk@, i as int) == !dropped);
        }
        if !dropped {
            seen.insert(wi.record_hash);
            bundle.add_work_item(wi);
        }
        proof {
            let gi = i as int;
            assert(seen@ == seen_upto(rv, skip_existing, on_disk@, gi + 1));
            let acc_old = accepted_upto(rv, skip_existing, on_disk@, gi);
            let acc_new = accepted_upto(rv, skip_existing, on_disk@, gi + 1);
            if !dropped {
                assert(acc_new == acc_old.push(gi));
            } else {
                assert(acc_new == acc_old);
            }
            assert forall|k: int| 0 <= k < bundle.work_items@.len() implies (
            #[trigger] bundle.work_items@[k]).is_for(acc_new[k], rv[acc_new[k]]) by {
                if k < acc_old.len() {
                    assert(bundle.work_items@[k].is_for(acc_old[k], rv[acc_old[k]]));
                    assert(acc_new[k] == acc_old[k]);
                }
            }
            let t_old = tts_upto(rv, skip_existing, on_disk@, gi);
            let t_new = tts_upto(rv, skip_existing, on_disk@, gi + 1);
            if !dropped && !t_old.contains_key(sentence_fp(rv[gi])) {
                assert(t_new == t_old.insert(sentence_fp(rv[gi]), rv[gi][0]));
                assert(rv[gi][0] == rows@[gi]@[0]@);
                assert(bundle.needs_tts@.dom() =~= t_new.dom());
            } else {
                assert(t_new == t_old);
            }
            assert(models_tts(bundle.needs_tts@, t_new));
        }
        i += 1;
    }
    bundle
}

/// A fingerprint seen among the first `i` rows stays seen among the first
/// `j`.
pub proof fn lemma_seen_monotone(
    rows: Seq<Seq<Seq<char>>>,
    skip: bool,
    on_disk: Seq<bool>,
    i: int,
    j: int,
)
    requires
        0 <= i <= j,
    ensures
        seen_upto(rows, skip, on_disk, i).subset_of(seen_upto(rows, skip, on_disk, j)),
    decreases j - i,
{
    if i < j {
        lemma_seen_monotone(rows, skip, on_disk, i, j - 1);
    }
}

/// Dedup by row: of two rows with identical field sequences, at most the
/// first is accepted; the later one contributes no output row and no
/// synthesis entry of its own.
pub proof fn lemma_dedup_by_row(
    rows: Seq<Seq<Seq<char>>>,
    skip: bool,
    on_disk: Seq<bool>,
    i: int,
    j: int,
)
    requires
        0 <= i < j < rows.len(),
        rows[i] == rows[j],
    ensures
        !(row_accepted(rows, skip, on_disk, i) && row_accepted(rows, skip, on_disk, j)),
{
    if row_accepted(rows, skip, on_disk, i) {
        assert(seen_upto(rows, skip, on_disk, i + 1).contains(row_fp(rows[i])));
        lemma_seen_monotone(rows, skip, on_disk, i + 1, j);
        assert(seen_upto(rows, skip, on_disk, j).contains(row_fp(rows[j])));
    }
}

/// The accepted index list holds exactly the accepted row numbers.
pub proof fn lemma_accepted_membership(
    rows: Seq<Seq<Seq<char>>>,
    skip: bool,
    on_disk: Seq<bool>,
    n: int,
    i: int,
)
    ensures
        accepted_upto(rows, skip, on_disk, n).contains(i) <==> (0 <= i < n && row_accepted(
            rows,
            skip,
            on_disk,
            i,
        )),
    decreases n,
{
    if n > 0 {
        lemma_accepted_membership(rows, skip, on_disk, n - 1, i);
        let prev = accepted_upto(rows, skip, on_disk, n - 1);
        let cur = accepted_upto(rows, skip, on_disk, n);
        if row_accepted(rows, skip, on_disk, n - 1) {
            assert(cur == prev.push(n - 1));
            if 0 <= i < n && row_accepted(rows, skip, on_disk, i) {
                if i == n - 1 {
                    assert(cur[cur.len() - 1] == i);
                    assert(cur.contains(i));
                } else {
                    let w = choose|w: int| 0 <= w < prev.len() && prev[w] == i;
                    assert(cur[w] == i);
                    assert(cur.contains(i));
                }
            }
            if cur.contains(i) {
                let w = choose|w: int| 0 <= w < cur.len() && cur[w] == i;
                if w < prev.len() {
                    assert(prev[w] == i);
                    assert(prev.contains(i));
                }
            }
        } else {
            assert(cur == prev);
        }
    }
}

/// Order preservation: the accepted index list ascends strictly and stays
/// inside the input, so output rows keep the source order of the rows that
/// survive.
pub proof fn lemma_output_order(rows: Seq<Seq<Seq<char>>>, skip: bool, on_disk: Seq<bool>, n: int)
    ensures
        ({
            let acc = accepted_upto(rows, skip, on_disk, n);
            &&& forall|a: int, b: int| 0 <= a < b < acc.len() ==> acc[a] < acc[b]
            &&& forall|a: int| 0 <= a < acc.len() ==> 0 <= #[trigger] acc[a] < n
        }),
    decreases n,
{
    if n > 0 {
        lemma_output_order(rows, skip, on_disk, n - 1);
        let prev = accepted_upto(rows, skip, on_disk, n - 1);
        let acc = accepted_upto(rows, skip, on_disk, n);
        assert forall|a: int, b: int| 0 <= a < b < acc.len() implies acc[a] < acc[b] by {
            if b < prev.len() {
                assert(acc[a] == prev[a] && acc[b] == prev[b]);
            } else {
                assert(acc[a] == prev[a] && 0 <= prev[a] < n - 1);
            }
        }
    }
}

/// The needs-synthesis map holds a fingerprint exactly when some accepted
/// row carries a sentence with that fingerprint.
pub proof fn lemma_tts_dom(
    rows: Seq<Seq<Seq<char>>>,
    skip: bool,
    on_disk: Seq<bool>,
    n: int,
    f: u64,
)
    ensures
        tts_upto(rows, skip, on_disk, n).contains_key(f) <==> exists|i: int|
            0 <= i < n && #[trigger] row_accepted(rows, skip, on_disk, i) && sentence_fp(rows[i])
                == f,
    decreases n,
{
    if n > 0 {
        lemma_tts_dom(rows, skip, on_disk, n - 1, f);
        if tts_upto(rows, skip, on_disk, n).contains_key(f) && !tts_upto(
            rows,
            skip,
            on_disk,
            n - 1,
        ).contains_key(f) {
            assert(row_accepted(rows, skip, on_disk, n - 1) && sentence_fp(rows[n - 1]) == f);
        }
        if exists|i: int|
            0 <= i < n && #[trigger] row_accepted(rows, skip, on_disk, i) && sentence_fp(rows[i])
                == f {
            let i = choose|i: int|
                0 <= i < n && #[trigger] row_accepted(rows, skip, on_disk, i) && sentence_fp(
                    rows[i],
                ) == f;
            if i < n - 1 {
                assert(tts_upto(rows, skip, on_disk, n - 1).contains_key(f));
            }
        }
    }
}

/// Every accepted row's sentence fingerprint has its entry in the
/// needs-synthesis map, so a synthesis result that covers the map resolves
/// every surviving row.
pub proof fn lemma_accepted_sentence_queued(
    rows: Seq<Seq<Seq<char>>>,
    skip: bool,
    on_disk: Seq<bool>,
    n: int,
    i: int,
)
    requires
        0 <= i < n,
        row_accepted(rows, skip, on_disk, i),
    ensures
        tts_upto(rows, skip, on_disk, n).contains_key(sentence_fp(rows[i])),
{
    lemma_tts_dom(rows, skip, on_disk, n, sentence_fp(rows[i]));
}

/// The first accepted row of a sentence fingerprint claims the
/// needs-synthesis entry: the entry holds that row's sentence text, whatever
/// later rows carry the same fingerprint.
pub proof fn lemma_first_row_claims_entry(
    rows: Seq<Seq<Seq<char>>>,
    skip: bool,
    on_disk: Seq<bool>,
    n: int,
    i: int,
)
    requires
        0 <= i < n <= rows.len(),
        row_accepted(rows, skip, on_disk, i),
        forall|j: int|
            0 <= j < i && #[trigger] row_accepted(rows, skip, on_disk, j) ==> sentence_fp(rows[j])
                != sentence_fp(rows[i]),
    ensures
        tts_upto(rows, skip, on_disk, n).contains_key(sentence_fp(rows[i])),
        tts_upto(rows, skip, on_disk, n)[sentence_fp(rows[i])] == rows[i][0],
    decreases n,
{
    let fp = sentence_fp(rows[i]);
    if n == i + 1 {
        lemma_tts_dom(rows, skip, on_disk, i, fp);
    } else {
        lemma_first_row_claims_entry(rows, skip, on_disk, n - 1, i);
    }
}

/// Sentence fingerprints depend on the first field alone.
pub proof fn lemma_sentence_fp_first_field(a: Seq<Seq<char>>, b: Seq<Seq<char>>)
    requires
        a.len() >= 1,
        b.len() >= 1,
        a[0] == b[0],
    ensures
        sentence_fp(a) == sentence_fp(b),
{
    assert(a.take(1) =~= b.take(1));
}

/// Dedup by sentence, not row: two accepted rows that share their first
/// field share one sentence fingerprint — hence one audio filename — and the
/// needs-synthesis map holds exactly one entry for it, while both rows stay
/// in the output.
pub proof fn lemma_shared_sentence(
    rows: Seq<Seq<Seq<char>>>,
    skip: bool,
    on_disk: Seq<bool>,
    i: int,
    j: int,
    n: int,
)
    requires
        0 <= i < j < n <= rows.len(),
        rows[i].len() >= 1,
        rows[j].len() >= 1,
        rows[i][0] == rows[j][0],
        row_accepted(rows, skip, on_disk, i),
        row_accepted(rows, skip, on_disk, j),
    ensures
        sentence_fp(rows[i]) == sentence_fp(rows[j]),
        output_filename_of(sentence_fp(rows[i])) == output_filename_of(sentence_fp(rows[j])),
        accepted_upto(rows, skip, on_disk, n).contains(i),
        accepted_upto(rows, skip, on_disk, n).contains(j),
        tts_upto(rows, skip, on_disk, n).contains_key(sentence_fp(rows[i])),
{
    lemma_sentence_fp_first_field(rows[i], rows[j]);
    lemma_accepted_membership(rows, skip, on_disk, n, i);
    lemma_accepted_membership(rows, skip, on_disk, n, j);
    lemma_tts_dom(rows, skip, on_disk, n, sentence_fp(rows[i]));
}

/// Skip-existing: when the flag is set and a row's output file is already on
/// disk, the row is dropped from the output, and when no accepted row shares
/// its sentence, no synthesis entry exists for that sentence either.
pub proof fn lemma_skip_existing(
    rows: Seq<Seq<Seq<char>>>,
    on_disk: Seq<bool>,
    i: int,
    n: int,
)
    requires
        0 <= i < n <= rows.len(),
        on_disk.len() == rows.len(),
        on_disk[i],
    ensures
        !row_accepted(rows, true, on_disk, i),
        !accepted_upto(rows, true, on_disk, n).contains(i),
        (forall|j: int|
            0 <= j < n && #[trigger] row_accepted(rows, true, on_disk, j) ==> sentence_fp(rows[j])
                != sentence_fp(rows[i])) ==> !tts_upto(rows, true, on_disk, n).contains_key(
            sentence_fp(rows[i]),
        ),
{
    lemma_accepted_membership(rows, true, on_disk, n, i);
    lemma_tts_dom(rows, true, on_disk, n, sentence_fp(rows[i]));
}

} // verus!
