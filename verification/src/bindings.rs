//! What a language binding decides before and around the model: devices and formats by name,
//! array shapes, the voice a call speaks with, and the exception that a failure raises.
use crate::error::{Error, Failure, Result};
use crate::server::launch::{self, HfRepo, RepoFiles};
use crate::synth::options;
use crate::synth::{Backends, DeviceKind, Quant, Scalar, SpeechOptions};
use crate::text;
use vstd::prelude::*;
use vstd::string::*;

verus! {

/// The device names that a build accepts, most capable first.
pub open spec fn device_names(built: Backends) -> Seq<Seq<char>> {
    (if built.cuda {
        seq!["cuda"@]
    } else {
        Seq::empty()
    }) + (if built.vulkan {
        seq!["vulkan"@]
    } else {
        Seq::empty()
    }) + (if built.metal {
        seq!["metal"@]
    } else {
        Seq::empty()
    }) + seq!["cpu"@]
}

/// The device names this build accepts, most capable first. `"auto"` picks the first of these.
pub fn available_devices(built: Backends) -> (r: Vec<String>)
    ensures
        text::texts(r@) == device_names(built),
{
    let mut r: Vec<String> = Vec::new();
    if built.cuda {
        r.push("cuda".to_owned());
    }
    if built.vulkan {
        r.push("vulkan".to_owned());
    }
    if built.metal {
        r.push("metal".to_owned());
    }
    r.push("cpu".to_owned());
    assert(text::texts(r@) =~= device_names(built));
    r
}

/// The device that is picked when none is named is the first of those that are accepted.
pub proof fn auto_is_the_first_available(built: Backends)
    ensures
        crate::synth::device::device_of(device_names(built)[0]) == Some(
            DeviceKind::Auto.resolved(built),
        ),
{
    reveal_strlit("auto");
    reveal_strlit("cpu");
    reveal_strlit("cuda");
    reveal_strlit("vulkan");
    reveal_strlit("metal");
    assert("auto"@[0] == 'a');
    assert("cpu"@[0] == 'c' && "cpu"@.len() == 3);
    assert("cuda"@[0] == 'c' && "cuda"@.len() == 4);
    assert("vulkan"@[0] == 'v');
    assert("metal"@[0] == 'm');
}

/// The weight formats that are accepted by name.
pub open spec fn quants() -> Seq<Quant> {
    seq![
        Quant::F32,
        Quant::Q80,
        Quant::Q81,
        Quant::Q8k,
        Quant::Q6k,
        Quant::Q50,
        Quant::Q51,
        Quant::Q5k,
        Quant::Q40,
        Quant::Q41,
        Quant::Q4k,
    ]
}

/// The weight formats that are accepted by name. All but the first are CPU-only.
pub fn available_quants() -> (r: Vec<&'static str>)
    ensures
        r@.len() == quants().len(),
        forall|i: int| 0 <= i < r@.len() ==> (#[trigger] r@[i])@ == quants()[i].name(),
{
    vec!["f32", "q8_0", "q8_1", "q8k", "q6k", "q5_0", "q5_1", "q5k", "q4_0", "q4_1", "q4k"]
}

/// Every weight format is on offer.
pub proof fn every_quant_is_available(quant: Quant)
    ensures
        quants().contains(quant),
{
    let q = quants();
    assert(q[0] == Quant::F32 && q[1] == Quant::Q80 && q[2] == Quant::Q81 && q[3] == Quant::Q8k);
    assert(q[4] == Quant::Q6k && q[5] == Quant::Q50 && q[6] == Quant::Q51 && q[7] == Quant::Q5k);
    assert(q[8] == Quant::Q40 && q[9] == Quant::Q41 && q[10] == Quant::Q4k);
}

/// Why a device and a weight format cannot be had.
pub open spec fn choice_failure(
    device: Option<Seq<char>>,
    quant: Option<Seq<char>>,
    built: Backends,
) -> Option<Failure> {
    let kind = match device {
        None => Some(DeviceKind::Auto),
        Some(name) => crate::synth::device::device_of(name),
    };
    let format = match quant {
        None => Some(Quant::F32),
        Some(name) => crate::synth::device::quant_of(name),
    };
    match (kind, format) {
        (None, _) => Some(
            Failure::InvalidArgument(
                "unknown device '"@ + device->0 + "'; expected auto, cpu, cuda, vulkan or metal"@,
            ),
        ),
        (Some(_), None) => Some(
            Failure::InvalidArgument(
                "unsupported quantization '"@ + quant->0
                    + "'; expected one of f32, q8_0, q8_1, q8k, q6k, q5_0, q5_1, q5k, q4_0, q4_1, q4k"@,
            ),
        ),
        (Some(kind), Some(format)) => if !format.runs_on(kind.resolved(built)) {
            Some(
                Failure::Unsupported(
                    "quantization ("@ + format.name()
                        + ") is CPU-only, but the selected device is "@ + kind.resolved(
                        built,
                    ).label(),
                ),
            )
        } else if !built.has(kind) {
            Some(
                Failure::Unsupported(
                    "device '"@ + crate::server::launch::flag_of(kind)
                        + "' is not available in this build; available: "@ + text::quoted_list(
                        device_names(built),
                    ),
                ),
            )
        } else {
            None
        },
    }
}

/// The device and the weight format that are asked for by name. Both checks happen before
/// anything is downloaded.
pub fn choose_by_name(device: Option<&str>, quant: Option<&str>, built: Backends) -> (r: Result<
    (DeviceKind, Quant),
>)
    ensures
        ({
            let d = match device {
                Some(d) => Some(d@),
                None => None,
            };
            let q = match quant {
                Some(q) => Some(q@),
                None => None,
            };
            match r {
                Ok((kind, format)) => {
                    &&& choice_failure(d, q, built) is None
                    &&& match d {
                        Some(name) => crate::synth::device::device_of(name) == Some(kind),
                        None => kind == DeviceKind::Auto,
                    }
                    &&& match q {
                        Some(name) => crate::synth::device::quant_of(name) == Some(format),
                        None => format == Quant::F32,
                    }
                },
                Err(e) => choice_failure(d, q, built) == Some(e@),
            }
        }),
{
    let kind = match device {
        None => DeviceKind::Auto,
        Some(name) => match DeviceKind::parse(name) {
            Ok(kind) => kind,
            Err(e) => {
                return Err(e);
            },
        },
    };
    let format = match quant {
        None => Quant::F32,
        Some(name) => match Quant::parse(name) {
            Ok(format) => format,
            Err(e) => {
                return Err(e);
            },
        },
    };
    match format.check_device(kind, built) {
        Ok(_) => {},
        Err(e) => {
            return Err(e);
        },
    }
    let missing: Option<&str> = match kind {
        DeviceKind::Cuda => if built.cuda {
            None
        } else {
            Some("cuda")
        },
        DeviceKind::Vulkan => if built.vulkan {
            None
        } else {
            Some("vulkan")
        },
        DeviceKind::Metal => if built.metal {
            None
        } else {
            Some("metal")
        },
        _ => None,
    };
    match missing {
        Some(name) => {
            let mut m = text::glue3(
                "device '",
                name,
                "' is not available in this build; available: ",
            );
            m.append(text::show_list(&available_devices(built)).as_str());
            Err(Error::Unsupported(m))
        },
        None => Ok((kind, format)),
    }
}

/// The weights file beside a local config: an unquantized checkpoint, falling back to a
/// pre-quantized one.
pub fn local_model_file(has_safetensors: bool) -> (r: &'static str)
    ensures
        r@ == (if has_safetensors {
            "model.safetensors"@
        } else {
            "model.q8.gguf"@
        }),
{
    if has_safetensors {
        "model.safetensors"
    } else {
        "model.q8.gguf"
    }
}

/// Whether a config argument names a local file: one that is there, or that is called like one.
pub fn is_local_config(config: &str, is_file: bool) -> (r: bool)
    ensures
        r == (is_file || ends_with(config@, ".json"@)),
{
    if is_file {
        return true;
    }
    let chars = text::chars_of(config);
    let end = text::chars_of(".json");
    if end.len() > chars.len() {
        return false;
    }
    text::is_at(&chars, &end, chars.len() - end.len())
}

/// `s` ends with `pat`.
pub open spec fn ends_with(s: Seq<char>, pat: Seq<char>) -> bool {
    text::occurs_at(s, pat, s.len() - pat.len())
}

/// Where the files of a checkpoint are.
#[derive(Debug)]
pub enum Artifacts {
    /// Beside this config. Its voices are those that are there.
    Local { config: String },
    /// In a repository on the Hub.
    Hub { repo: HfRepo, files: RepoFiles },
}

/// Where the files of the checkpoint that `config` names are: a local config, a repository on the
/// Hub, or nothing for the published checkpoint. A repository that is named brings no voices.
pub fn resolve(config: Option<&str>, is_file: bool) -> (r: Artifacts)
    ensures
        match (config, r) {
            (Some(name), Artifacts::Local { config }) => {
                &&& is_file || ends_with(name@, ".json"@)
                &&& config@ == name@
            },
            (Some(name), Artifacts::Hub { repo, files }) => {
                &&& !is_file && !ends_with(name@, ".json"@)
                &&& repo.repo_id@ == name@
                &&& repo.owner@ == launch::owner_of(name@)
                &&& repo.name@ == launch::name_in(name@)
                &&& files.config matches Some(c) && c@ == "config.json"@
                &&& files.weights@ == "model.q8.gguf"@
                &&& files.tokenizer@ == "tokenizer.json"@
                &&& files.voices@.len() == 0
            },
            (None, Artifacts::Hub { repo, files }) => {
                &&& repo.repo_id@ == launch::DEFAULT_REPO_ID@
                &&& repo.owner@ == launch::owner_of(launch::DEFAULT_REPO_ID@)
                &&& repo.name@ == launch::name_in(launch::DEFAULT_REPO_ID@)
                &&& files.config is None
                &&& files.weights@ == launch::DEFAULT_MODEL_FILE@
                &&& files.tokenizer@ == "tokenizer.json"@
                &&& launch::voice_list(files.voices@) == launch::published_voice_files()
                &&& files.voices_optional
            },
            _ => false,
        },
{
    match config {
        None => Artifacts::Hub {
            repo: HfRepo::model(launch::DEFAULT_REPO_ID),
            files: launch::published_files(),
        },
        Some(name) => {
            if is_local_config(name, is_file) {
                return Artifacts::Local { config: name.to_owned() };
            }
            let files = RepoFiles {
                config: Some("config.json"),
                weights: "model.q8.gguf",
                tokenizer: "tokenizer.json",
                voices: Vec::new(),
                voices_optional: false,
            };
            Artifacts::Hub { repo: HfRepo::model(name), files }
        },
    }
}

/// A voice that is named at load time has to be there.
pub fn check_voice(name: Option<&str>, voices: &Vec<String>) -> (r: Result<()>)
    ensures
        match r {
            Ok(_) => name matches Some(n) ==> text::texts(voices@).contains(n@),
            Err(e) => name matches Some(n) && !text::texts(voices@).contains(n@) && e@
                == Failure::NotFound(
                "unknown voice '"@ + n@ + "'; available voices are "@ + text::quoted_list(
                    text::texts(voices@),
                ),
            ),
        },
{
    match name {
        None => Ok(()),
        Some(n) => {
            if text::is_listed(voices, n) {
                return Ok(());
            }
            let mut m = text::glue3("unknown voice '", n, "'; available voices are ");
            m.append(text::show_list(voices).as_str());
            Err(Error::NotFound(m))
        },
    }
}

/// Per-call settings, with the model's default voice filled in. A call that names no voice, on a
/// model without a default, speaks with the first that is registered by then, so that a voice
/// registered later is used without having to name it on every call.
pub fn call_options(
    voice: Option<String>,
    default_voice: &Option<String>,
    registered: &Vec<String>,
    temperature: Option<Scalar>,
    seed: Option<u64>,
    cfg_coef: Option<Scalar>,
) -> (r: SpeechOptions)
    ensures
        options::shown(r.voice) == (match (options::shown(voice), options::shown(*default_voice)) {
            (Some(v), _) => Some(v),
            (None, Some(v)) => Some(v),
            (None, None) => if registered@.len() > 0 {
                Some(text::texts(registered@)[0])
            } else {
                None
            },
        }),
        r.temperature == temperature,
        r.seed == seed,
        r.cfg_coef == cfg_coef,
        r.max_tokens_per_chunk is None,
{
    let voice = match voice {
        Some(v) => Some(v),
        None => match default_voice {
            Some(v) => Some(v.clone()),
            None => if registered.len() > 0 {
                Some(registered[0].clone())
            } else {
                None
            },
        },
    };
    SpeechOptions { voice, temperature, seed, cfg_coef, max_tokens_per_chunk: None }
}

/// The frames and the width of a conditioning embedding of shape `[T, dim]` or `[1, T, dim]`.
pub fn embedding_dims(shape: &Vec<usize>) -> (r: Result<(usize, usize)>)
    ensures
        match r {
            Ok((frames, dim)) => shape@ == seq![frames, dim] || shape@ == seq![1usize, frames, dim],
            Err(e) => {
                &&& shape@.len() != 2
                &&& shape@.len() == 3 ==> shape@[0] != 1
                &&& e@ == Failure::InvalidArgument(
                    "expected an embedding of shape [T, dim] or [1, T, dim], got "@
                        + text::bracketed(shape@),
                )
            },
        },
{
    if shape.len() == 2 {
        assert(shape@ =~= seq![shape@[0], shape@[1]]);
        return Ok((shape[0], shape[1]));
    }
    if shape.len() == 3 && shape[0] == 1 {
        assert(shape@ =~= seq![1usize, shape@[1], shape@[2]]);
        return Ok((shape[1], shape[2]));
    }
    Err(
        Error::InvalidArgument(
            text::glue2(
                "expected an embedding of shape [T, dim] or [1, T, dim], got ",
                text::list_of(shape).as_str(),
            ),
        ),
    )
}

/// How a model shows itself.
pub fn repr(device: &str, quant: Quant, sample_rate: usize, voices: &Vec<String>) -> (r: String)
    ensures
        r@ == "TTS(device='"@ + device@ + "', quant='"@ + quant.name() + "', sample_rate="@
            + text::decimal(sample_rate as nat) + ", voices="@ + text::quoted_list(text::texts(voices@))
            + ")"@,
{
    let mut m = text::glue3("TTS(device='", device, "', quant='");
    m.append(quant.as_str());
    m.append("', sample_rate=");
    m.append(text::decimal_of(sample_rate as u64).as_str());
    m.append(", voices=");
    m.append(text::show_list(voices).as_str());
    m.append(")");
    m
}

/// The Python exceptions that failures raise, so that `except` can be specific.
#[derive(Clone, Copy, Debug, PartialEq, Eq, Structural)]
pub enum Exception {
    /// A bad argument: an unknown weight format, a mis-shaped array.
    ValueError,
    /// An unknown voice, or a checkpoint file that is not there.
    LookupError,
    /// A backend that was not built in, or cloning on a checkpoint without a speaker encoder.
    NotImplementedError,
    /// A gated repository on the Hub.
    PermissionError,
    /// Anything else.
    RuntimeError,
}

impl Exception {
    /// The name of the exception's class.
    pub open spec fn class(self) -> Seq<char> {
        match self {
            Exception::ValueError => "ValueError"@,
            Exception::LookupError => "LookupError"@,
            Exception::NotImplementedError => "NotImplementedError"@,
            Exception::PermissionError => "PermissionError"@,
            Exception::RuntimeError => "RuntimeError"@,
        }
    }

    /// The name of the exception's class.
    pub fn name(self) -> (r: &'static str)
        ensures
            r@ == self.class(),
    {
        match self {
            Exception::ValueError => "ValueError",
            Exception::LookupError => "LookupError",
            Exception::NotImplementedError => "NotImplementedError",
            Exception::PermissionError => "PermissionError",
            Exception::RuntimeError => "RuntimeError",
        }
    }
}

/// The exception that a class of failure calls for.
pub open spec fn raised_by(f: Failure) -> Exception {
    match f {
        Failure::InvalidArgument(_) => Exception::ValueError,
        Failure::UnknownVoice { .. } => Exception::LookupError,
        Failure::NotFound(_) => Exception::LookupError,
        Failure::Unsupported(_) => Exception::NotImplementedError,
        Failure::SeqBudgetExceeded { .. } => Exception::RuntimeError,
        Failure::VoicePromptTooLong { .. } => Exception::RuntimeError,
        Failure::InvalidData(_) => Exception::RuntimeError,
        Failure::Busy(_) => Exception::RuntimeError,
        Failure::Io { .. } => Exception::RuntimeError,
        Failure::Tensor { .. } => Exception::RuntimeError,
    }
}

/// The exception that a failure raises, by its class alone.
pub fn exception_of(e: &Error) -> (r: Exception)
    ensures
        r == raised_by(e@),
{
    match e {
        Error::InvalidArgument(_) => Exception::ValueError,
        Error::UnknownVoice { .. } => Exception::LookupError,
        Error::NotFound(_) => Exception::LookupError,
        Error::Unsupported(_) => Exception::NotImplementedError,
        Error::SeqBudgetExceeded { .. } => Exception::RuntimeError,
        Error::VoicePromptTooLong { .. } => Exception::RuntimeError,
        Error::InvalidData(_) => Exception::RuntimeError,
        Error::Busy(_) => Exception::RuntimeError,
        Error::Io { .. } => Exception::RuntimeError,
        Error::Tensor(_) => Exception::RuntimeError,
    }
}

/// How the Hub failed to hand out a file.
#[derive(Clone, Copy, Debug, PartialEq, Eq, Structural)]
pub enum HubFault {
    /// The repository is gated, and the caller is not let in.
    Gated,
    /// There is no such repository, revision or file.
    Missing,
    /// Anything else.
    Other,
}

/// The exception that a file raises which the Hub did not hand out, and its message: `detail` is
/// what the Hub said. That of a gated repository says how to authenticate.
pub fn fetch_exception(repo: &HfRepo, filename: &str, fault: HubFault, detail: &str) -> (r: (
    Exception,
    String,
))
    ensures
        r.0 == (match fault {
            HubFault::Gated => Exception::PermissionError,
            HubFault::Missing => Exception::LookupError,
            HubFault::Other => Exception::RuntimeError,
        }),
        r.1@ == "failed to fetch `"@ + filename@ + "` from model repo `"@ + repo.repo_id@ + "`"@
            + ": "@ + detail@ + (if fault == HubFault::Gated {
            "; the repo is gated: accept its terms at https://huggingface.co/"@ + repo.repo_id@
                + " and set HF_TOKEN to an access token"@
        } else {
            ""@
        }),
{
    let mut m = repo.fetch_context(filename);
    m.append(": ");
    m.append(detail);
    match fault {
        HubFault::Gated => {
            m.append("; the repo is gated: accept its terms at https://huggingface.co/");
            m.append(repo.repo_id.as_str());
            m.append(" and set HF_TOKEN to an access token");
            proof {
                let said = "failed to fetch `"@ + filename@ + "` from model repo `"@ + repo.repo_id@
                    + "`"@ + ": "@ + detail@;
                let how = "; the repo is gated: accept its terms at https://huggingface.co/"@;
                let token = " and set HF_TOKEN to an access token"@;
                assert(said + how + repo.repo_id@ + token =~= said + (how + repo.repo_id@ + token));
            }
            (Exception::PermissionError, m)
        },
        HubFault::Missing => {
            proof {
                reveal_strlit("");
                assert(m@ + ""@ =~= m@);
            }
            (Exception::LookupError, m)
        },
        HubFault::Other => {
            proof {
                reveal_strlit("");
                assert(m@ + ""@ =~= m@);
            }
            (Exception::RuntimeError, m)
        },
    }
}

/// An embedding has the same frames and width with and without a batch of one in front of it, and
/// of no other shape.
pub proof fn a_batch_of_one_is_no_other_embedding(
    shape: Vec<usize>,
    batched: Vec<usize>,
    r: Result<(usize, usize)>,
    s: Result<(usize, usize)>,
)
    requires
        shape@.len() == 2,
        batched@ == seq![1usize, shape@[0], shape@[1]],
        call_ensures(embedding_dims, (&shape,), r),
        call_ensures(embedding_dims, (&batched,), s),
    ensures
        r == Ok::<(usize, usize), Error>((shape@[0], shape@[1])),
        s == Ok::<(usize, usize), Error>((shape@[0], shape@[1])),
{
    if let Ok((frames, dim)) = r {
        assert(seq![frames, dim].len() == 2 && seq![1usize, frames, dim].len() == 3);
        assert(shape@ == seq![frames, dim]);
        assert(shape@[0] == frames && shape@[1] == dim);
    }
    if let Ok((frames, dim)) = s {
        assert(batched@ == seq![1usize, frames, dim]) by {
            assert(seq![frames, dim].len() == 2);
        }
        assert(batched@[1] == frames && batched@[2] == dim);
    }
}

/// A call speaks with the voice that it names, else with the model's own, else with the first that
/// is registered; and everything else is passed on as it was given.
pub proof fn calls_speak_with_the_nearest_voice(
    voice: Option<String>,
    default_voice: Option<String>,
    registered: Vec<String>,
    temperature: Option<Scalar>,
    seed: Option<u64>,
    cfg_coef: Option<Scalar>,
    r: SpeechOptions,
)
    requires
        call_ensures(
            call_options,
            (voice, &default_voice, &registered, temperature, seed, cfg_coef),
            r,
        ),
    ensures
        voice matches Some(v) ==> (r.voice matches Some(w) && w@ == v@),
        voice is None && default_voice is Some ==> (r.voice matches Some(w) && w@
            == default_voice->0@),
        voice is None && default_voice is None && registered@.len() > 0 ==> (
        r.voice matches Some(w) && w@ == registered@[0]@),
        r.voice is None ==> registered@.len() == 0,
        r.temperature == temperature && r.seed == seed && r.cfg_coef == cfg_coef,
{
}

/// A named voice is accepted if and only if it is one of the model's, and a model without a named
/// voice always is.
pub proof fn a_named_voice_has_to_be_there(name: &str, voices: Vec<String>, r: Result<()>, none: Result<()>)
    requires
        call_ensures(check_voice, (Some(name), &voices), r),
        call_ensures(check_voice, (None::<&str>, &voices), none),
    ensures
        r is Ok <==> exists|i: int| 0 <= i < voices@.len() && (#[trigger] voices@[i])@ == name@,
        none is Ok,
{
    let all = text::texts(voices@);
    if all.contains(name@) {
        let i = choose|i: int| 0 <= i < all.len() && all[i] == name@;
        assert(voices@[i]@ == name@);
    }
    if exists|i: int| 0 <= i < voices@.len() && (#[trigger] voices@[i])@ == name@ {
        let i = choose|i: int| 0 <= i < voices@.len() && (#[trigger] voices@[i])@ == name@;
        assert(all[i] == name@);
    }
}

/// What a call asks for by name is what it gets, the device left open and the plain weights when it
/// names none; quantized weights never end up on a GPU.
pub proof fn names_are_taken_at_their_word(
    device: Option<&str>,
    quant: Option<&str>,
    built: Backends,
    r: Result<(DeviceKind, Quant)>,
)
    requires
        call_ensures(choose_by_name, (device, quant, built), r),
    ensures
        r matches Ok((kind, format)) ==> {
            &&& device is None ==> kind == DeviceKind::Auto
            &&& device matches Some(name) ==> crate::synth::device::device_of(name@) == Some(kind)
            &&& quant is None ==> format == Quant::F32
            &&& format != Quant::F32 ==> kind == DeviceKind::Cpu || (kind == DeviceKind::Auto
                && !built.cuda && !built.vulkan && !built.metal)
            &&& kind == DeviceKind::Cuda ==> built.cuda
            &&& kind == DeviceKind::Vulkan ==> built.vulkan
            &&& kind == DeviceKind::Metal ==> built.metal
        },
        device is None && quant is None ==> r is Ok,
{
}

} // verus!
