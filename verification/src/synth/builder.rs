//! Configuring and loading a model.
use super::device::{Backends, DeviceKind, Quant};
use super::options::{self, Defaults, Scalar};
use crate::error::{Error, Failure, Result};
use crate::plan::{self, FrameRate};
use crate::preprocess::Normalize;
use crate::text;
use vstd::prelude::*;
use vstd::string::*;

verus! {

/// The most text tokens a chunk has unless a caller says otherwise.
pub const MAX_TOKENS_PER_CHUNK: usize = 50;

/// The seed of requests unless a caller says otherwise.
pub const DEFAULT_SEED: u64 = 4242424242424242;

/// The bits of the default temperature, 0.3.
pub const DEFAULT_TEMPERATURE: u32 = 0x3e99_999a;

/// Configures and loads a model. `C` is a checkpoint's config, `T` a tokenizer.
///
/// The config, the weights path and the normalization policy are required, and none has a
/// default. Which files a checkpoint ships, what they are called and where its voices live all
/// change from one release to the next, so locating them belongs to the frontend; this reads the
/// files it is handed.
pub struct SynthBuilder<C, T> {
    pub config: C,
    pub weights: String,
    pub tokenizer_file: Option<String>,
    pub device: DeviceKind,
    pub quant: Quant,
    pub tokenizer: Option<T>,
    pub temperature: Scalar,
    pub seed: u64,
    pub cfg_coef: Option<Scalar>,
    pub eos_threshold: Option<Scalar>,
    pub voice: Option<String>,
    pub max_tokens_per_chunk: usize,
    pub voices: Vec<VoiceFile>,
    pub normalize: Normalize,
}

/// A precomputed voice embedding to register at load time.
pub struct VoiceFile {
    pub name: String,
    pub path: String,
}

/// Where the tokenizer comes from.
pub enum TokenizerSource<T> {
    /// The caller supplied it.
    Supplied(T),
    /// It has to be read from this file.
    File(String),
}

/// The name of the feature that brings a backend, and how the backend is called.
pub open spec fn missing_backend(device: DeviceKind) -> Seq<char> {
    match device {
        DeviceKind::Cuda => "this build has no CUDA support; rebuild with the `cuda` feature"@,
        DeviceKind::Vulkan => "this build has no Vulkan support; rebuild with the `vulkan` feature"@,
        _ => "this build has no Metal support; rebuild with the `metal` feature"@,
    }
}

impl<C, T> SynthBuilder<C, T> {
    /// A checkpoint's config, its weights file (GGUF or safetensors), and how to normalize text.
    ///
    /// `normalize` has no default on purpose. Normalization makes the model noticeably better,
    /// so it should not be something a caller forgets to turn on -- but the spoken forms are
    /// per-language, and guessing is worse than doing nothing.
    pub fn new(config: C, weights: &str, normalize: Normalize) -> (r: Self)
        ensures
            r.config == config,
            r.weights@ == weights@,
            r.normalize == normalize,
            r.tokenizer_file is None,
            r.device == DeviceKind::Auto,
            r.quant == Quant::F32,
            r.tokenizer is None,
            r.temperature.bits == DEFAULT_TEMPERATURE,
            r.temperature.shown@ == "0.3"@,
            r.seed == DEFAULT_SEED,
            r.cfg_coef is None,
            r.eos_threshold is None,
            r.voice is None,
            r.max_tokens_per_chunk == MAX_TOKENS_PER_CHUNK,
            r.voices@.len() == 0,
    {
        SynthBuilder {
            config,
            weights: weights.to_owned(),
            tokenizer_file: None,
            device: DeviceKind::Auto,
            quant: Quant::F32,
            tokenizer: None,
            temperature: Scalar { bits: DEFAULT_TEMPERATURE, shown: "0.3".to_owned() },
            seed: DEFAULT_SEED,
            cfg_coef: None,
            eos_threshold: None,
            voice: None,
            max_tokens_per_chunk: MAX_TOKENS_PER_CHUNK,
            voices: Vec::new(),
            normalize,
        }
    }

    /// The tokenizer file the checkpoint ships. Ignored when [`Self::tokenizer`] supplies one
    /// directly.
    pub fn tokenizer_file(self, path: &str) -> (r: Self)
        ensures
            options::shown(r.tokenizer_file) == Some(path@),
            r == (SynthBuilder { tokenizer_file: r.tokenizer_file, ..self }),
    {
        SynthBuilder { tokenizer_file: Some(path.to_owned()), ..self }
    }

    pub fn device(self, device: DeviceKind) -> (r: Self)
        ensures
            r == (SynthBuilder { device, ..self }),
    {
        SynthBuilder { device, ..self }
    }

    /// Weight format for the flow-LM transformer linears. CPU only.
    pub fn quant(self, quant: Quant) -> (r: Self)
        ensures
            r == (SynthBuilder { quant, ..self }),
    {
        SynthBuilder { quant, ..self }
    }

    /// Supply the tokenizer explicitly. Required when the checkpoint ships no tokenizer file, or
    /// when no tokenizer backend is compiled in.
    pub fn tokenizer(self, tokenizer: T) -> (r: Self)
        ensures
            r == (SynthBuilder { tokenizer: Some(tokenizer), ..self }),
    {
        SynthBuilder { tokenizer: Some(tokenizer), ..self }
    }

    pub fn temperature(self, temperature: Scalar) -> (r: Self)
        ensures
            r == (SynthBuilder { temperature, ..self }),
    {
        SynthBuilder { temperature, ..self }
    }

    pub fn seed(self, seed: u64) -> (r: Self)
        ensures
            r == (SynthBuilder { seed, ..self }),
    {
        SynthBuilder { seed, ..self }
    }

    /// Classifier-free guidance coefficient applied to every request. `1.0` disables it.
    pub fn cfg_coef(self, cfg_coef: Scalar) -> (r: Self)
        ensures
            r == (SynthBuilder { cfg_coef: Some(cfg_coef), ..self }),
    {
        SynthBuilder { cfg_coef: Some(cfg_coef), ..self }
    }

    /// Override the config's EOS log-probability threshold. Lower values let the model run
    /// longer before it decides an utterance is finished.
    pub fn eos_threshold(self, eos_threshold: Scalar) -> (r: Self)
        ensures
            r == (SynthBuilder { eos_threshold: Some(eos_threshold), ..self }),
    {
        SynthBuilder { eos_threshold: Some(eos_threshold), ..self }
    }

    /// Default voice for requests that do not name one. Defaults to the first registered voice
    /// by name.
    pub fn voice(self, voice: &str) -> (r: Self)
        ensures
            options::shown(r.voice) == Some(voice@),
            r == (SynthBuilder { voice: r.voice, ..self }),
    {
        SynthBuilder { voice: Some(voice.to_owned()), ..self }
    }

    /// Maximum text tokens per synthesized chunk. Longer text is split on sentence boundaries.
    pub fn max_tokens_per_chunk(self, max_tokens: usize) -> (r: Self)
        ensures
            r == (SynthBuilder { max_tokens_per_chunk: max_tokens, ..self }),
    {
        SynthBuilder { max_tokens_per_chunk: max_tokens, ..self }
    }

    /// Register a precomputed voice embedding at load time. A voice that fails to load fails the
    /// whole load.
    pub fn add_voice(self, name: &str, path: &str) -> (r: Self)
        ensures
            r == (SynthBuilder { voices: r.voices, ..self }),
            r.voices@.len() == self.voices@.len() + 1,
            r.voices@.drop_last() == self.voices@,
            r.voices@.last().name@ == name@,
            r.voices@.last().path@ == path@,
    {
        let mut voices = self.voices;
        voices.push(VoiceFile { name: name.to_owned(), path: path.to_owned() });
        assert(voices@.drop_last() =~= self.voices@);
        SynthBuilder { voices, ..self }
    }

    /// The device to load the checkpoint on: the one asked for, or the best of the build. The
    /// weight format has to run there, and the build has to have it.
    pub fn build(&self, built: Backends) -> (r: Result<DeviceKind>)
        ensures
            match r {
                Ok(device) => {
                    &&& device == self.device.resolved(built)
                    &&& self.quant.runs_on(device)
                    &&& built.has(device)
                },
                Err(e) => {
                    let device = self.device.resolved(built);
                    if !self.quant.runs_on(device) {
                        e@ == Failure::Unsupported(
                            "quantization ("@ + self.quant.name()
                                + ") is CPU-only, but the selected device is "@ + device.label(),
                        )
                    } else {
                        !built.has(device) && e@ == Failure::Unsupported(missing_backend(device))
                    }
                },
            },
    {
        let device = self.device.resolve(built);
        match self.quant.check_device(device, built) {
            Ok(_) => {},
            Err(e) => {
                return Err(e);
            },
        }
        match device {
            DeviceKind::Cuda => if !built.cuda {
                return Err(
                    Error::Unsupported(
                        "this build has no CUDA support; rebuild with the `cuda` feature".to_owned(),
                    ),
                );
            },
            DeviceKind::Vulkan => if !built.vulkan {
                return Err(
                    Error::Unsupported(
                        "this build has no Vulkan support; rebuild with the `vulkan` feature".to_owned(),
                    ),
                );
            },
            DeviceKind::Metal => if !built.metal {
                return Err(
                    Error::Unsupported(
                        "this build has no Metal support; rebuild with the `metal` feature".to_owned(),
                    ),
                );
            },
            _ => {},
        }
        Ok(device)
    }

    /// The weights have to be there.
    pub fn check_weights(&self, is_file: bool) -> (r: Result<()>)
        ensures
            match r {
                Ok(_) => is_file,
                Err(e) => !is_file && e@ == Failure::NotFound(
                    "weights file not found: "@ + self.weights@,
                ),
            },
    {
        if is_file {
            Ok(())
        } else {
            Err(
                Error::NotFound(text::glue2("weights file not found: ", self.weights.as_str())),
            )
        }
    }

    /// Where the tokenizer comes from. One supplied by the caller wins, for callers with no
    /// filesystem to read one from. Otherwise it is the one the checkpoint shipped, if a
    /// tokenizer backend is compiled in.
    pub fn take_tokenizer(&mut self, has_backend: bool) -> (r: Result<TokenizerSource<T>>)
        ensures
            *final(self) == (SynthBuilder { tokenizer: None, ..*old(self) }),
            match old(self).tokenizer {
                Some(t) => r matches Ok(TokenizerSource::Supplied(s)) && s == t,
                None => match options::shown(old(self).tokenizer_file) {
                    Some(path) => if has_backend {
                        r matches Ok(TokenizerSource::File(p)) && p@ == path
                    } else {
                        r matches Err(e) && e@ == Failure::Unsupported(
                            "cannot read the tokenizer at "@ + path
                                + ": `ptts` was built without the `hf` feature."@,
                        )
                    },
                    None => r matches Err(e) && e@ == Failure::Unsupported(
                        "no tokenizer available: no `tokenizer.json` was found beside the checkpoint, and none was passed to SynthBuilder::tokenizer or SynthBuilder::tokenizer_file."@,
                    ),
                },
            },
    {
        match self.tokenizer.take() {
            Some(t) => {
                return Ok(TokenizerSource::Supplied(t));
            },
            None => {},
        }
        match &self.tokenizer_file {
            Some(path) => if has_backend {
                Ok(TokenizerSource::File(path.clone()))
            } else {
                Err(
                    Error::Unsupported(
                        text::glue3(
                            "cannot read the tokenizer at ",
                            path.as_str(),
                            ": `ptts` was built without the `hf` feature.",
                        ),
                    ),
                )
            },
            None => Err(
                Error::Unsupported(
                    "no tokenizer available: no `tokenizer.json` was found beside the checkpoint, and none was passed to SynthBuilder::tokenizer or SynthBuilder::tokenizer_file.".to_owned(),
                ),
            ),
        }
    }

    /// The settings that requests start from.
    pub fn defaults(&self) -> (r: Defaults)
        ensures
            options::shown(r.voice) == options::shown(self.voice),
            r.temperature.same_as(self.temperature),
            r.seed == self.seed,
            options::same_scalar(r.cfg_coef, self.cfg_coef),
            r.max_tokens_per_chunk == self.max_tokens_per_chunk,
    {
        Defaults {
            voice: match &self.voice {
                Some(v) => Some(v.clone()),
                None => None,
            },
            temperature: self.temperature.copied(),
            seed: self.seed,
            cfg_coef: match &self.cfg_coef {
                Some(c) => Some(c.copied()),
                None => None,
            },
            max_tokens_per_chunk: self.max_tokens_per_chunk,
        }
    }
}

/// The tensor that tells whether a checkpoint carries a speaker encoder. A dedicated speaker
/// codec ships its encoder under its own prefix.
pub fn encoder_probe(prefix: &str) -> (r: String)
    ensures
        r@ == prefix@ + ".encoder.model.0.conv.weight"@,
{
    text::glue2(prefix, ".encoder.model.0.conv.weight")
}

/// At 12.5Hz a full chunk needs a KV budget of 796, so 1024 covers any single chunk.
pub proof fn a_session_of_1024_covers_any_chunk(tokens: nat)
    requires
        tokens <= MAX_TOKENS_PER_CHUNK,
    ensures
        ({
            let rate = FrameRate { num: 25, den: 2 };
            tokens + plan::PROMPT_SEQ_HEADROOM + plan::frames_for(tokens, rate) <= 796
        }),
        MAX_TOKENS_PER_CHUNK + plan::PROMPT_SEQ_HEADROOM + plan::frames_for(
            MAX_TOKENS_PER_CHUNK as nat,
            FrameRate { num: 25, den: 2 },
        ) == 796,
{
    let rate = FrameRate { num: 25, den: 2 };
    plan::frames_grow_with_the_text(tokens, MAX_TOKENS_PER_CHUNK as nat, rate);
    assert(plan::frames_for(50, rate) == 234) by {
        assert((50 + 6) * 25 == 1400);
        assert((1400 + 6 - 1) / 6 == 234);
    }
}

/// Weights on a GPU are never quantized: what passes the checks there is the plain format.
pub proof fn gpu_weights_are_unquantized(device: DeviceKind, quant: Quant)
    requires
        quant.runs_on(device),
        device != DeviceKind::Cpu,
    ensures
        quant == Quant::F32,
{
}

/// A checkpoint is loaded on the device that was asked for, or on the most capable one of the build
/// when the choice was left open -- CUDA before Vulkan before Metal before the CPU -- and never where
/// its weights do not run or the build has no such device.
pub proof fn a_checkpoint_is_loaded_where_it_runs<C, T>(
    builder: SynthBuilder<C, T>,
    built: Backends,
    r: Result<DeviceKind>,
)
    requires
        call_ensures(SynthBuilder::<C, T>::build, (&builder, built), r),
    ensures
        r matches Ok(device) ==> {
            &&& device != DeviceKind::Auto
            &&& builder.device != DeviceKind::Auto ==> device == builder.device
            &&& builder.quant != Quant::F32 ==> device == DeviceKind::Cpu
            &&& device == DeviceKind::Cuda ==> built.cuda
            &&& device == DeviceKind::Vulkan ==> built.vulkan
            &&& device == DeviceKind::Metal ==> built.metal
            &&& builder.device == DeviceKind::Auto ==> {
                &&& built.cuda ==> device == DeviceKind::Cuda
                &&& built.vulkan && !built.cuda ==> device == DeviceKind::Vulkan
                &&& built.metal && !built.cuda && !built.vulkan ==> device == DeviceKind::Metal
                &&& !built.metal && !built.cuda && !built.vulkan ==> device == DeviceKind::Cpu
            }
        },
        builder.device == DeviceKind::Cpu || (builder.device == DeviceKind::Auto && builder.quant
            == Quant::F32) ==> r is Ok,
{
}

} // verus!
