//! Voices of the synthesis backend: the catalog entry as the backend reports
//! it, the selectable voice the pipeline works with, and the selection of one
//! voice by case-insensitive identifier match plus a required-capability
//! filter.

use vstd::prelude::*;
use vstd::string::StringExecFns;
use crate::errors::GenError;

verus! {

/// The characters of a string after case folding.
pub uninterp spec fn lower_of(s: Seq<char>) -> Seq<char>;

/// Relies on `str::to_lowercase`: the result is a function of the characters
/// alone.
#[verifier::external_body]
fn lowercase(s: &str) -> (r: String)
    ensures
        r@ == lower_of(s@),
{
    s.to_lowercase()
}

/// One entry of the backend's voice catalog, with every field as optional as
/// the backend reports it.
#[derive(Debug)]
pub struct VoiceRecord {
    pub id: Option<String>,
    pub gender: Option<String>,
    pub language_name: Option<String>,
    pub language_code: Option<String>,
    pub supported_engines: Option<Vec<String>>,
}

/// A selectable synthesis voice: identifier, gender, display language,
/// language code, and whether it supports the neural engine.
#[derive(Debug, Eq, PartialEq, Ord, PartialOrd, Hash, Clone)]
pub struct TTSVoice {
    pub id: String,
    pub gender: String,
    pub language: String,
    pub code: String,
    pub neural: bool,
}

/// The catalog entry names every field a voice needs.
pub open spec fn convertible(v: VoiceRecord) -> bool {
    &&& v.id is Some
    &&& v.gender is Some
    &&& v.language_name is Some
    &&& v.language_code is Some
}

/// Some listed engine is the neural one, up to case.
pub open spec fn neural_in(engines: Seq<String>) -> bool {
    exists|i: int| 0 <= i < engines.len() && lower_of((#[trigger] engines[i])@) == "neural"@
}

/// Some reported engine is the neural one, up to case.
pub open spec fn neural_supported(engines: Option<Vec<String>>) -> bool {
    match engines {
        Option::None => false,
        Option::Some(es) => neural_in(es@),
    }
}

/// The voice a complete catalog entry describes.
pub open spec fn converted(v: VoiceRecord) -> TTSVoice {
    TTSVoice {
        id: v.id->0,
        gender: v.gender->0,
        language: v.language_name->0,
        code: v.language_code->0,
        neural: neural_supported(v.supported_engines),
    }
}

/// The entry's identifier matches the requested one, up to case.
pub open spec fn id_matches(v: VoiceRecord, requested: Seq<char>) -> bool {
    v.id is Some && lower_of((v.id->0)@) == lower_of(requested)
}

fn engines_support_neural(es: &Vec<String>) -> (r: bool)
    ensures
        r == neural_in(es@),
{
    let target = String::from_str("neural");
    let n = es.len();
    let mut i: usize = 0;
    while i < n
        invariant
            0 <= i <= n,
            n == es@.len(),
            target@ == "neural"@,
            forall|j: int| 0 <= j < i ==> lower_of((#[trigger] es@[j])@) != "neural"@,
        decreases n - i,
    {
        let e = &es[i];
        let low = lowercase(e.as_str());
        if low == target {
            proof {
                assert(lower_of((es@[i as int])@) == "neural"@);
            }
            return true;
        }
        i += 1;
    }
    false
}

impl TTSVoice {
    /// Reads a catalog entry into a voice, when every needed field is there.
    pub fn new_from_voice(v: &VoiceRecord) -> (r: Option<TTSVoice>)
        ensures
            r == if convertible(*v) {
                Option::Some(converted(*v))
            } else {
                Option::<TTSVoice>::None
            },
    {
        let id = match &v.id {
            Option::Some(s) => s.clone(),
            Option::None => {
                return Option::None;
            },
        };
        let gender = match &v.gender {
            Option::Some(s) => s.clone(),
            Option::None => {
                return Option::None;
            },
        };
        let language = match &v.language_name {
            Option::Some(s) => s.clone(),
            Option::None => {
                return Option::None;
            },
        };
        let code = match &v.language_code {
            Option::Some(s) => s.clone(),
            Option::None => {
                return Option::None;
            },
        };
        let neural = match &v.supported_engines {
            Option::Some(es) => engines_support_neural(es),
            Option::None => false,
        };
        Option::Some(TTSVoice { id, gender, language, code, neural })
    }

    /// Reads a catalog entry into a voice, or reports it invalid.
    pub fn try_from_record(v: &VoiceRecord) -> (r: Result<TTSVoice, GenError>)
        ensures
            r == if convertible(*v) {
                Result::Ok::<TTSVoice, GenError>(converted(*v))
            } else {
                Result::Err::<TTSVoice, GenError>(GenError::InvalidVoice)
            },
    {
        match TTSVoice::new_from_voice(v) {
            Option::Some(tv) => Result::Ok(tv),
            Option::None => Result::Err(GenError::InvalidVoice),
        }
    }
}

/// The catalog entry at `i` matches the requested identifier but cannot be
/// read into a voice.
pub open spec fn bad_at(vs: Seq<VoiceRecord>, requested: Seq<char>, i: int) -> bool {
    id_matches(vs[i], requested) && !convertible(vs[i])
}

/// The catalog entry at `i` matches the requested identifier, reads into a
/// voice, and carries the neural engine when one is required.
pub open spec fn ok_at(vs: Seq<VoiceRecord>, requested: Seq<char>, neural: bool, i: int) -> bool {
    &&& id_matches(vs[i], requested)
    &&& convertible(vs[i])
    &&& (!neural || neural_supported(vs[i].supported_engines))
}

/// Selects the voice for a run: among the catalog entries whose identifier
/// matches the requested one up to case, every entry must read into a voice
/// (else the run is invalid), and the first that carries the required engine
/// wins; with none, no voice is found.
pub fn select_voice(voices: &Vec<VoiceRecord>, requested: &str, neural: bool) -> (r: Result<
    TTSVoice,
    GenError,
>)
    ensures
        ({
            let vs = voices@;
            let req = requested@;
            &&& (r == Result::Err::<TTSVoice, GenError>(GenError::InvalidVoice) <==> exists|i: int|
                0 <= i < vs.len() && #[trigger] bad_at(vs, req, i))
            &&& (!(exists|i: int| 0 <= i < vs.len() && #[trigger] bad_at(vs, req, i)) ==> {
                if exists|i: int| 0 <= i < vs.len() && #[trigger] ok_at(vs, req, neural, i) {
                    exists|i: int|
                        {
                            &&& 0 <= i < vs.len()
                            &&& #[trigger] ok_at(vs, req, neural, i)
                            &&& (forall|j: int| 0 <= j < i ==> !ok_at(vs, req, neural, j))
                            &&& r == Result::Ok::<TTSVoice, GenError>(converted(vs[i]))
                        }
                } else {
                    r == Result::Err::<TTSVoice, GenError>(GenError::VoiceNotFound)
                }
            })
        }),
{
    let req_low = lowercase(requested);
    let n = voices.len();
    let mut found: Option<TTSVoice> = Option::None;
    let ghost mut found_at: int = 0;
    let mut i: usize = 0;
    while i < n
        invariant
            0 <= i <= n,
            n == voices@.len(),
            req_low@ == lower_of(requested@),
            forall|j: int| 0 <= j < i ==> !bad_at(voices@, requested@, j),
            found is None ==> forall|j: int| 0 <= j < i ==> !ok_at(voices@, requested@, neural, j),
            found matches Option::Some(tv) ==> {
                &&& 0 <= found_at < i
                &&& ok_at(voices@, requested@, neural, found_at)
                &&& forall|j: int| 0 <= j < found_at ==> !ok_at(voices@, requested@, neural, j)
                &&& tv == converted(voices@[found_at])
            },
        decreases n - i,
    {
        let v = &voices[i];
        let matched = match &v.id {
            Option::Some(vid) => {
                let vid_low = lowercase(vid.as_str());
                vid_low == req_low
            },
            Option::None => false,
        };
        if matched {
            match TTSVoice::try_from_record(v) {
                Result::Ok(tv) => {
                    if (!neural || tv.neural) && found.is_none() {
                        proof {
                            found_at = i as int;
                        }
                        found = Option::Some(tv);
                    }
                },
                Result::Err(e) => {
                    proof {
                        assert(bad_at(voices@, requested@, i as int));
                    }
                    return Result::Err(e);
                },
            }
        }
        i += 1;
    }
    match found {
        Option::Some(tv) => Result::Ok(tv),
        Option::None => Result::Err(GenError::VoiceNotFound),
    }
}

/// Hands the catalog through when the backend returned voice data, and
/// reports the empty catalog otherwise.
pub fn require_voices(voices: Option<Vec<VoiceRecord>>) -> (r: Result<Vec<VoiceRecord>, GenError>)
    ensures
        r == match voices {
            Option::Some(vs) => Result::Ok::<Vec<VoiceRecord>, GenError>(vs),
            Option::None => Result::Err::<Vec<VoiceRecord>, GenError>(GenError::NoVoices),
        },
{
    match voices {
        Option::Some(vs) => Result::Ok(vs),
        Option::None => Result::Err(GenError::NoVoices),
    }
}

/// The engine name a synthesis request carries.
pub open spec fn engine_name_of(neural: bool) -> Seq<char> {
    if neural {
        "neural"@
    } else {
        "standard"@
    }
}

/// Picks the engine a synthesis request names.
pub fn engine_name(neural: bool) -> (r: &'static str)
    ensures
        r@ == engine_name_of(neural),
{
    if neural {
        "neural"
    } else {
        "standard"
    }
}

} // verus!
