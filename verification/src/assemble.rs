//! Fan-in and emission: merging the per-sentence synthesis outcomes into one
//! all-or-nothing result map, and reassembling output rows — one per
//! surviving work item, in source order, each with an appended reference to
//! its audio file.

use vstd::prelude::*;
use vstd::string::StringExecFns;
use crate::errors::GenError;
use crate::fpmap::FpMap;
use crate::work::{clone_fields, WorkBundle, WorkItem};

verus! {

/// The reference field appended to an output row for an audio file.
pub open spec fn sound_tag_of(file: Seq<char>) -> Seq<char> {
    "[sound:"@ + file + "]"@
}

/// Builds the reference field for an audio filename.
pub fn sound_tag(file: &str) -> (r: String)
    ensures
        r@ == sound_tag_of(file@),
{
    let mut t = String::from_str("[sound:");
    t.append(file);
    t.append("]");
    t
}

/// Copies audio bytes one by one, so that the copy is known byte for byte.
pub fn clone_bytes(b: &Vec<u8>) -> (c: Vec<u8>)
    ensures
        c@ == b@,
{
    let n = b.len();
    let mut c: Vec<u8> = Vec::new();
    let mut i: usize = 0;
    while i < n
        invariant
            0 <= i <= n,
            n == b@.len(),
            c@ == b@.subrange(0, i as int),
        decreases n - i,
    {
        c.push(b[i]);
        proof {
            assert(c@ =~= b@.subrange(0, i + 1 as int));
        }
        i += 1;
    }
    proof {
        assert(c@ =~= b@);
    }
    c
}

/// The key of a successful synthesis outcome.
pub open spec fn outcome_key(o: Result<(u64, Vec<u8>), GenError>) -> u64 {
    (o->Ok_0).0
}

/// The audio bytes of a successful synthesis outcome.
pub open spec fn outcome_bytes(o: Result<(u64, Vec<u8>), GenError>) -> Seq<u8> {
    (o->Ok_0).1@
}

/// Merges the settled synthesis outcomes into the result map, all or
/// nothing: one failure fails the whole batch, and no partial result comes
/// back.
pub fn merge_outcomes(outcomes: &Vec<Result<(u64, Vec<u8>), GenError>>) -> (r: Result<
    FpMap<Vec<u8>>,
    GenError,
>)
    ensures
        r is Ok <==> (forall|i: int| 0 <= i < outcomes@.len() ==> (#[trigger] outcomes@[i]) is Ok),
        r matches Result::Err(e) ==> exists|i: int|
            {
                &&& 0 <= i < outcomes@.len()
                &&& (#[trigger] outcomes@[i]) matches Result::Err(e2) && e == e2
                &&& forall|j: int| 0 <= j < i ==> (#[trigger] outcomes@[j]) is Ok
            },
        r matches Result::Ok(m) ==> {
            &&& m.wf()
            &&& forall|i: int|
                0 <= i < outcomes@.len() ==> m@.contains_key(outcome_key(#[trigger] outcomes@[i]))
            &&& forall|k: u64|
                #[trigger] m@.contains_key(k) ==> exists|i: int|
                    0 <= i < outcomes@.len() && outcome_key(#[trigger] outcomes@[i]) == k
            &&& forall|i: int|
                0 <= i < outcomes@.len() && (forall|j: int|
                    0 <= j < i ==> outcome_key(#[trigger] outcomes@[j]) != outcome_key(
                        outcomes@[i],
                    )) ==> m@[outcome_key(#[trigger] outcomes@[i])]@ == outcome_bytes(outcomes@[i])
        },
{
    let n = outcomes.len();
    let mut m = FpMap::<Vec<u8>>::new();
    let mut i: usize = 0;
    while i < n
        invariant
            0 <= i <= n,
            n == outcomes@.len(),
            m.wf(),
            forall|j: int| 0 <= j < i ==> (#[trigger] outcomes@[j]) is Ok,
            forall|j: int| 0 <= j < i ==> m@.contains_key(outcome_key(#[trigger] outcomes@[j])),
            forall|k: u64|
                #[trigger] m@.contains_key(k) ==> exists|j: int|
                    0 <= j < i && outcome_key(#[trigger] outcomes@[j]) == k,
            forall|j: int|
                0 <= j < i && (forall|l: int|
                    0 <= l < j ==> outcome_key(#[trigger] outcomes@[l]) != outcome_key(
                        outcomes@[j],
                    )) ==> m@[outcome_key(#[trigger] outcomes@[j])]@ == outcome_bytes(outcomes@[j]),
        decreases n - i,
    {
        match &outcomes[i] {
            Result::Err(e) => {
                return Result::Err(*e);
            },
            Result::Ok(pair) => {
                let k = pair.0;
                let bytes = clone_bytes(&pair.1);
                proof {
                    if !m@.contains_key(k) {
                        assert(forall|l: int|
                            0 <= l < i ==> outcome_key(#[trigger] outcomes@[l]) != k);
                    }
                }
                m.insert_if_absent(k, bytes);
            },
        }
        i += 1;
    }
    Result::Ok(m)
}

/// One output record: the original fields plus the appended audio reference,
/// the audio filename, and the audio bytes to write under it.
#[derive(Debug)]
pub struct EmitRecord {
    pub fields: Vec<String>,
    pub file_name: String,
    pub audio: Vec<u8>,
}

/// The record emitted for a work item under a result map.
pub open spec fn emit_for(e: EmitRecord, wi: WorkItem, results: Map<u64, Vec<u8>>) -> bool {
    &&& e.fields@.len() == wi.record@.len() + 1
    &&& forall|j: int| 0 <= j < wi.record@.len() ==> e.fields@[j] == wi.record@[j]
    &&& e.fields@.last()@ == sound_tag_of(wi.output_path@)
    &&& e.file_name == wi.output_path
    &&& results.contains_key(wi.sentence_hash)
    &&& e.audio@ == results[wi.sentence_hash]@
}

/// Reassembles the output: for each surviving work item in source order,
/// looks up the synthesized audio under the item's sentence fingerprint and
/// emits the row with the audio reference appended. A fingerprint without a
/// result is a bookkeeping defect and fails the whole run, reporting the
/// first offending fingerprint.
pub fn assemble_outputs(bundle: &WorkBundle, results: &FpMap<Vec<u8>>) -> (r: Result<
    Vec<EmitRecord>,
    GenError,
>)
    requires
        bundle.wf(),
        results.wf(),
    ensures
        r is Ok <==> (forall|k: int|
            0 <= k < bundle.work_items@.len() ==> results@.contains_key(
                (#[trigger] bundle.work_items@[k]).sentence_hash,
            )),
        r matches Result::Ok(out) ==> {
            &&& out@.len() == bundle.work_items@.len()
            &&& forall|k: int|
                0 <= k < out@.len() ==> emit_for(#[trigger] out@[k], bundle.work_items@[k], results@)
        },
        r matches Result::Err(e) ==> exists|k: int|
            {
                &&& 0 <= k < bundle.work_items@.len()
                &&& !results@.contains_key((#[trigger] bundle.work_items@[k]).sentence_hash)
                &&& forall|j: int|
                    0 <= j < k ==> results@.contains_key(
                        (#[trigger] bundle.work_items@[j]).sentence_hash,
                    )
                &&& e == GenError::MissingResult(bundle.work_items@[k].sentence_hash)
            },
{
    let n = bundle.work_items.len();
    let mut out: Vec<EmitRecord> = Vec::new();
    let mut k: usize = 0;
    while k < n
        invariant
            0 <= k <= n,
            n == bundle.work_items@.len(),
            bundle.wf(),
            results.wf(),
            out@.len() == k,
            forall|j: int|
                0 <= j < k ==> results@.contains_key(
                    (#[trigger] bundle.work_items@[j]).sentence_hash,
                ),
            forall|j: int| 0 <= j < k ==> emit_for(#[trigger] out@[j], bundle.work_items@[j], results@),
        decreases n - k,
    {
        let wi = &bundle.work_items[k];
        match results.get(wi.sentence_hash) {
            Option::None => {
                return Result::Err(GenError::MissingResult(wi.sentence_hash));
            },
            Option::Some(bytes) => {
                let audio = clone_bytes(bytes);
                let mut fields = clone_fields(&wi.record);
                let tag = sound_tag(wi.output_path.as_str());
                fields.push(tag);
                let file_name = wi.output_path.clone();
                let e = EmitRecord { fields, file_name, audio };
                out.push(e);
            },
        }
        k += 1;
    }
    Result::Ok(out)
}

} // verus!
