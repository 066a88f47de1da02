use parrot::assemble::{assemble_outputs, merge_outcomes, sound_tag};
use parrot::errors::GenError;
use parrot::fingerprint::{fingerprint_row, fingerprint_sentence};
use parrot::fpmap::FpMap;
use parrot::work::{build_bundle, validate_rows, WorkItem};

fn row(fields: &[&str]) -> Vec<String> {
    fields.iter().map(|f| f.to_string()).collect()
}

#[test]
fn fingerprint_same_fields_same_value() {
    let r = row(&["Hello world", "tag1"]);
    let again = row(&["Hello world", "tag1"]);
    assert_eq!(fingerprint_sentence(&r), fingerprint_sentence(&again));
    assert_eq!(fingerprint_row(&r), fingerprint_row(&again));
}

#[test]
fn fingerprint_field_boundaries() {
    let split = row(&["a", "b"]);
    let joined = row(&["ab"]);
    assert_ne!(fingerprint_row(&split), fingerprint_row(&joined));
}

#[test]
fn fingerprint_single_field_row_equals_sentence() {
    let r = row(&["Goodbye"]);
    assert_eq!(fingerprint_row(&r), fingerprint_sentence(&r));
}

#[test]
fn fingerprint_sentence_ignores_metadata() {
    let a = row(&["Hello world", "tag1"]);
    let b = row(&["Hello world", "tag2"]);
    assert_eq!(fingerprint_sentence(&a), fingerprint_sentence(&b));
    assert_ne!(fingerprint_row(&a), fingerprint_row(&b));
}

#[test]
fn work_item_filename_embeds_sentence_hash() {
    let wi = WorkItem::new_from_record(0, row(&["Hello world", "tag1"]));
    assert_eq!(wi.output_path, format!("parrot_{}.mp3", wi.sentence_hash));
    assert_eq!(wi.seq, 0);
    assert_eq!(wi.record, row(&["Hello world", "tag1"]));
}

#[test]
fn validate_rows_rejects_empty_row() {
    let rows = vec![row(&["ok"]), row(&[])];
    assert_eq!(validate_rows(&rows), Err(GenError::EmptyRow));
    let good = vec![row(&["ok"]), row(&["also", "ok"])];
    assert_eq!(validate_rows(&good), Ok(()));
}

#[test]
fn dedup_by_row_drops_exact_duplicate() {
    let rows = vec![row(&["Hello", "tag"]), row(&["Hello", "tag"])];
    let b = build_bundle(rows, false, vec![false, false]);
    assert_eq!(b.work_items.len(), 1);
    assert_eq!(b.work_items[0].seq, 0);
    assert_eq!(b.needs_tts.len(), 1);
}

#[test]
fn dedup_by_sentence_keeps_both_rows() {
    let rows = vec![row(&["Hello", "tag1"]), row(&["Hello", "tag2"])];
    let b = build_bundle(rows, false, vec![false, false]);
    assert_eq!(b.work_items.len(), 2);
    assert_eq!(b.work_items[0].output_path, b.work_items[1].output_path);
    assert_eq!(b.work_items[0].sentence_hash, b.work_items[1].sentence_hash);
    // exactly one synthesis entry for the shared sentence
    assert_eq!(b.needs_tts.len(), 1);
    let (fp, text) = b.needs_tts.entry_at(0);
    assert_eq!(fp, b.work_items[0].sentence_hash);
    assert_eq!(text.as_str(), "Hello");
}

#[test]
fn order_preserved_for_accepted_rows() {
    let rows = vec![
        row(&["one"]),
        row(&["two"]),
        row(&["one"]),
        row(&["three"]),
    ];
    let b = build_bundle(rows, false, vec![false; 4]);
    let seqs: Vec<usize> = b.work_items.iter().map(|wi| wi.seq).collect();
    assert_eq!(seqs, vec![0, 1, 3]);
    let sentences: Vec<&str> = b
        .work_items
        .iter()
        .map(|wi| wi.record[0].as_str())
        .collect();
    assert_eq!(sentences, vec!["one", "two", "three"]);
}

#[test]
fn skip_existing_drops_row_and_synthesis() {
    let rows = vec![row(&["stale"]), row(&["fresh"])];
    let b = build_bundle(rows, true, vec![true, false]);
    assert_eq!(b.work_items.len(), 1);
    assert_eq!(b.work_items[0].record[0], "fresh");
    assert_eq!(b.needs_tts.len(), 1);
    let stale_fp = fingerprint_sentence(&row(&["stale"]));
    assert!(!b.needs_tts.contains_key(stale_fp));
}

#[test]
fn skip_existing_flag_off_keeps_row() {
    let rows = vec![row(&["stale"])];
    let b = build_bundle(rows, false, vec![true]);
    assert_eq!(b.work_items.len(), 1);
}

#[test]
fn needs_tts_entries_ascend_by_fingerprint() {
    let rows = vec![
        row(&["alpha"]),
        row(&["beta"]),
        row(&["gamma"]),
        row(&["delta"]),
    ];
    let b = build_bundle(rows, false, vec![false; 4]);
    assert_eq!(b.needs_tts.len(), 4);
    let mut last = None;
    for i in 0..b.needs_tts.len() {
        let (fp, _) = b.needs_tts.entry_at(i);
        if let Some(prev) = last {
            assert!(prev < fp);
        }
        last = Some(fp);
    }
}

#[test]
fn first_accepted_row_claims_synthesis_entry() {
    let rows = vec![row(&["Hello", "first"]), row(&["Hello", "second"])];
    let b = build_bundle(rows, false, vec![false, false]);
    let fp = b.work_items[0].sentence_hash;
    assert_eq!(b.needs_tts.get(fp), Some(&"Hello".to_string()));
}

#[test]
fn merge_outcomes_collects_all_successes() {
    let outcomes = vec![
        Ok((7u64, vec![1u8, 2])),
        Ok((3u64, vec![3u8])),
    ];
    let m = merge_outcomes(&outcomes).unwrap();
    assert_eq!(m.len(), 2);
    assert_eq!(m.get(7), Some(&vec![1u8, 2]));
    assert_eq!(m.get(3), Some(&vec![3u8]));
    // walking order is fingerprint order
    assert_eq!(m.entry_at(0).0, 3);
    assert_eq!(m.entry_at(1).0, 7);
}

#[test]
fn merge_outcomes_fails_whole_batch_on_one_error() {
    let outcomes = vec![
        Ok((7u64, vec![1u8])),
        Err(GenError::SynthesisFailed),
        Ok((3u64, vec![2u8])),
    ];
    assert_eq!(
        merge_outcomes(&outcomes).unwrap_err(),
        GenError::SynthesisFailed
    );
}

#[test]
fn sound_tag_wraps_filename() {
    assert_eq!(sound_tag("parrot_5.mp3"), "[sound:parrot_5.mp3]");
}

#[test]
fn assemble_appends_sound_reference_in_order() {
    let rows = vec![
        row(&["Hello world", "tag1"]),
        row(&["Hello world", "tag2"]),
        row(&["Goodbye", "tag1"]),
        row(&["Hello world", "tag1"]),
    ];
    let b = build_bundle(rows, false, vec![false; 4]);
    // row 4 is an exact duplicate of row 1: accepted rows are 1, 2, 3
    assert_eq!(b.work_items.len(), 3);
    // exactly two sentences need synthesis
    assert_eq!(b.needs_tts.len(), 2);
    let mut results: FpMap<Vec<u8>> = FpMap::new();
    for i in 0..b.needs_tts.len() {
        let (fp, _) = b.needs_tts.entry_at(i);
        results.insert_if_absent(fp, vec![i as u8]);
    }
    let out = assemble_outputs(&b, &results).unwrap();
    assert_eq!(out.len(), 3);
    let hello = &b.work_items[0];
    assert_eq!(out[0].fields.len(), 3);
    assert_eq!(out[0].fields[0], "Hello world");
    assert_eq!(out[0].fields[1], "tag1");
    assert_eq!(out[0].fields[2], format!("[sound:{}]", hello.output_path));
    assert_eq!(out[1].fields[1], "tag2");
    // rows 1 and 2 share the audio filename; row 3 does not
    assert_eq!(out[0].file_name, out[1].file_name);
    assert_ne!(out[0].file_name, out[2].file_name);
    assert_eq!(out[0].audio, out[1].audio);
}

#[test]
fn assemble_reports_missing_fingerprint() {
    let rows = vec![row(&["lonely"])];
    let b = build_bundle(rows, false, vec![false]);
    let results: FpMap<Vec<u8>> = FpMap::new();
    let fp = b.work_items[0].sentence_hash;
    assert_eq!(
        assemble_outputs(&b, &results).unwrap_err(),
        GenError::MissingResult(fp)
    );
}

#[test]
fn fpmap_keeps_first_binding() {
    let mut m: FpMap<Vec<u8>> = FpMap::new();
    m.insert_if_absent(5, vec![1u8]);
    m.insert_if_absent(5, vec![2u8]);
    assert_eq!(m.len(), 1);
    assert_eq!(m.get(5), Some(&vec![1u8]));
    assert_eq!(m.get(6), None);
    assert!(m.contains_key(5));
    assert!(!m.contains_key(6));
}
