use parrot::errors::GenError;
use parrot::voice::{engine_name, require_voices, select_voice, TTSVoice, VoiceRecord};

fn voice(id: &str, engines: &[&str]) -> VoiceRecord {
    VoiceRecord {
        id: Some(id.to_string()),
        gender: Some("Female".to_string()),
        language_name: Some("US English".to_string()),
        language_code: Some("en-US".to_string()),
        supported_engines: Some(engines.iter().map(|e| e.to_string()).collect()),
    }
}

#[test]
fn new_from_voice_reads_complete_entry() {
    let v = voice("Ivy", &["standard", "NEURAL"]);
    let tv = TTSVoice::new_from_voice(&v).unwrap();
    assert_eq!(tv.id, "Ivy");
    assert_eq!(tv.gender, "Female");
    assert_eq!(tv.language, "US English");
    assert_eq!(tv.code, "en-US");
    assert!(tv.neural);
}

#[test]
fn new_from_voice_rejects_missing_field() {
    let mut v = voice("Ivy", &["standard"]);
    v.gender = None;
    assert!(TTSVoice::new_from_voice(&v).is_none());
    assert_eq!(
        TTSVoice::try_from_record(&v).unwrap_err(),
        GenError::InvalidVoice
    );
}

#[test]
fn new_from_voice_without_engines_is_standard_only() {
    let mut v = voice("Ivy", &[]);
    v.supported_engines = None;
    let tv = TTSVoice::new_from_voice(&v).unwrap();
    assert!(!tv.neural);
}

#[test]
fn select_voice_matches_id_case_insensitively() {
    let voices = vec![voice("Joanna", &["standard"]), voice("Ivy", &["standard"])];
    let tv = select_voice(&voices, "IVY", false).unwrap();
    assert_eq!(tv.id, "Ivy");
}

#[test]
fn select_voice_requires_neural_support() {
    let voices = vec![voice("Ivy", &["standard"])];
    assert_eq!(
        select_voice(&voices, "ivy", true).unwrap_err(),
        GenError::VoiceNotFound
    );
    let voices = vec![voice("Ivy", &["standard", "neural"])];
    assert!(select_voice(&voices, "ivy", true).unwrap().neural);
}

#[test]
fn select_voice_reports_unknown_id() {
    let voices = vec![voice("Joanna", &["standard"])];
    assert_eq!(
        select_voice(&voices, "Ivy", false).unwrap_err(),
        GenError::VoiceNotFound
    );
}

#[test]
fn select_voice_reports_malformed_match() {
    let mut broken = voice("Ivy", &["standard"]);
    broken.language_code = None;
    let voices = vec![broken];
    assert_eq!(
        select_voice(&voices, "ivy", false).unwrap_err(),
        GenError::InvalidVoice
    );
}

#[test]
fn select_voice_takes_first_fitting_voice() {
    let voices = vec![voice("Ivy", &["standard"]), voice("ivy", &["neural"])];
    let tv = select_voice(&voices, "Ivy", false).unwrap();
    assert_eq!(tv.id, "Ivy");
    let tv = select_voice(&voices, "Ivy", true).unwrap();
    assert_eq!(tv.id, "ivy");
}

#[test]
fn require_voices_rejects_empty_catalog() {
    assert_eq!(require_voices(None).unwrap_err(), GenError::NoVoices);
    let vs = require_voices(Some(vec![voice("Ivy", &[])])).unwrap();
    assert_eq!(vs.len(), 1);
}

#[test]
fn engine_name_follows_flag() {
    assert_eq!(engine_name(true), "neural");
    assert_eq!(engine_name(false), "standard");
}
