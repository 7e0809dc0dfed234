//! Starting the server: which device and weights to run, which files to load, and which voice to
//! speak with unless a client asks for another.
use crate::error::{Error, Failure, Result};
use crate::plan::FrameRate;
use crate::synth::{Backends, DeviceKind, Quant};
use crate::text;
use vstd::prelude::*;
use vstd::string::*;

verus! {

/// The repository of the published checkpoint.
pub const DEFAULT_REPO_ID: &'static str = "kyutai/pocket-tts";

/// The weights file of the published checkpoint.
pub const DEFAULT_MODEL_FILE: &'static str = "tts_b6369a24.safetensors";

/// What the seed of a stream is spread with.
pub const SEED_SPREAD: u64 = 0x9E37_79B9_7F4A_7C15;

/// The voices of the published checkpoint.
pub open spec fn published_voices() -> Seq<Seq<char>> {
    seq![
        "alba"@,
        "marius"@,
        "javert"@,
        "jean"@,
        "fantine"@,
        "cosette"@,
        "eponine"@,
        "azelma"@,
    ]
}

/// The voices of the published checkpoint.
pub fn voices() -> (r: Vec<String>)
    ensures
        text::texts(r@) == published_voices(),
{
    let r = vec![
        "alba".to_owned(),
        "marius".to_owned(),
        "javert".to_owned(),
        "jean".to_owned(),
        "fantine".to_owned(),
        "cosette".to_owned(),
        "eponine".to_owned(),
        "azelma".to_owned(),
    ];
    assert(text::texts(r@) =~= published_voices());
    r
}

/// The file of a voice in the published checkpoint.
pub fn voice_file(voice: &str) -> (r: String)
    ensures
        r@ == embedding_file(voice@),
{
    text::glue3("embeddings/", voice, ".safetensors")
}

/// The backend flags of the command line.
#[derive(Clone, Copy, Debug, PartialEq, Eq, Structural)]
pub struct BackendFlags {
    pub cuda: bool,
    pub vulkan: bool,
    pub metal: bool,
}

impl BackendFlags {
    /// More than one backend is asked for.
    pub open spec fn conflict(self) -> bool {
        self.cuda && self.vulkan || self.cuda && self.metal || self.vulkan && self.metal
    }

    /// The device that is asked for: the CPU unless a flag says otherwise.
    pub open spec fn device(self) -> DeviceKind {
        if self.cuda {
            DeviceKind::Cuda
        } else if self.vulkan {
            DeviceKind::Vulkan
        } else if self.metal {
            DeviceKind::Metal
        } else {
            DeviceKind::Cpu
        }
    }
}

/// The flag that a device is asked for with.
pub open spec fn flag_of(device: DeviceKind) -> Seq<char> {
    match device {
        DeviceKind::Cuda => "cuda"@,
        DeviceKind::Vulkan => "vulkan"@,
        _ => "metal"@,
    }
}

/// Why the server does not start.
pub open spec fn launch_failure(
    flags: BackendFlags,
    quant: Option<Seq<char>>,
    built: Backends,
) -> Option<Failure> {
    let device = flags.device();
    let format = match quant {
        None => Some(Quant::F32),
        Some(name) => crate::synth::device::quant_of(name),
    };
    if flags.conflict() {
        Some(
            Failure::InvalidArgument(
                "at most one of --cuda, --vulkan, and --metal can be used"@,
            ),
        )
    } else {
        match (quant, format) {
            (Some(name), None) => Some(
                Failure::InvalidArgument(
                    "unsupported quantization '"@ + name
                        + "'; expected one of f32, q8_0, q8_1, q8k, q6k, q5_0, q5_1, q5k, q4_0, q4_1, q4k"@,
                ),
            ),
            (_, Some(format)) => if !format.runs_on(device) {
                Some(
                    Failure::Unsupported(
                        "quantization ("@ + format.name()
                            + ") is CPU-only, but the selected device is "@ + device.label(),
                    ),
                )
            } else if !built.has(device) {
                Some(
                    Failure::Unsupported(
                        "--"@ + flag_of(device)
                            + " requested but binary was not built with --features "@ + flag_of(
                            device,
                        ),
                    ),
                )
            } else {
                None
            },
            (None, None) => None,
        }
    }
}

/// The device and the weight format that the command line asks for.
///
/// Every check happens before anything is downloaded: building would catch the same, but only
/// after the checkpoint is on disk.
pub fn choose_backend(flags: BackendFlags, quant: Option<&str>, built: Backends) -> (r: Result<
    (DeviceKind, Quant),
>)
    ensures
        ({
            let name = match quant {
                Some(q) => Some(q@),
                None => None,
            };
            match r {
                Ok((device, format)) => {
                    &&& launch_failure(flags, name, built) is None
                    &&& device == flags.device()
                    &&& match name {
                        Some(name) => crate::synth::device::quant_of(name) == Some(format),
                        None => format == Quant::F32,
                    }
                },
                Err(e) => launch_failure(flags, name, built) == Some(e@),
            }
        }),
{
    if (flags.cuda && flags.vulkan) || (flags.cuda && flags.metal) || (flags.vulkan
        && flags.metal) {
        return Err(
            Error::InvalidArgument(
                "at most one of --cuda, --vulkan, and --metal can be used".to_owned(),
            ),
        );
    }
    let device = if flags.cuda {
        DeviceKind::Cuda
    } else if flags.vulkan {
        DeviceKind::Vulkan
    } else if flags.metal {
        DeviceKind::Metal
    } else {
        DeviceKind::Cpu
    };
    let format = match quant {
        None => Quant::F32,
        Some(name) => match Quant::parse(name) {
            Ok(q) => q,
            Err(e) => {
                return Err(e);
            },
        },
    };
    match format.check_device(device, built) {
        Ok(_) => {},
        Err(e) => {
            return Err(e);
        },
    }
    let missing: Option<&str> = match device {
        DeviceKind::Cuda => if built.cuda {
            None
        } else {
            Some("cuda")
        },
        DeviceKind::Vulkan => if built.vulkan {
            None
        } else {
            Some("vulkan")
        },
        DeviceKind::Metal => if built.metal {
            None
        } else {
            Some("metal")
        },
        _ => None,
    };
    match missing {
        Some(flag) => {
            let mut m = text::glue3(
                "--",
                flag,
                " requested but binary was not built with --features ",
            );
            m.append(flag);
            Err(Error::Unsupported(m))
        },
        None => Ok((device, format)),
    }
}

/// Where the checkpoint comes from.
#[derive(Debug)]
pub enum Source {
    /// A local config file, with the checkpoint beside it.
    Config(String),
    /// A repository on the Hub.
    Repo(String),
    /// The published checkpoint.
    Published,
}

/// Where the checkpoint that `config` names comes from: a file that is there, or is called like
/// a config, is one; anything else names a repository.
pub fn choose_source(config: Option<&str>, is_file: bool, has_json_extension: bool) -> (r: Source)
    ensures
        match config {
            Some(name) => if is_file || has_json_extension {
                r matches Source::Config(path) && path@ == name@
            } else {
                r matches Source::Repo(id) && id@ == name@
            },
            None => r is Published,
        },
{
    match config {
        Some(name) => if is_file || has_json_extension {
            Source::Config(name.to_owned())
        } else {
            Source::Repo(name.to_owned())
        },
        None => Source::Published,
    }
}

/// A voice of a repository: its name, and the file that holds it.
#[derive(Debug)]
pub struct RepoVoice {
    pub name: String,
    pub file: String,
}

/// The files to fetch from a repository.
#[derive(Debug)]
pub struct RepoFiles {
    /// The config, unless it is known without.
    pub config: Option<&'static str>,
    pub weights: &'static str,
    pub tokenizer: &'static str,
    /// The voices. One that cannot be fetched is done without when `voices_optional`.
    pub voices: Vec<RepoVoice>,
    pub voices_optional: bool,
}

/// The names and files of some voices.
pub open spec fn voice_list(v: Seq<RepoVoice>) -> Seq<(Seq<char>, Seq<char>)> {
    Seq::new(v.len(), |i: int| (v[i].name@, v[i].file@))
}

/// The file of a voice in the published checkpoint.
pub open spec fn embedding_file(voice: Seq<char>) -> Seq<char> {
    "embeddings/"@ + voice + ".safetensors"@
}

/// The files of a repository laid out with a config, a quantized checkpoint and a default voice.
pub fn repo_files() -> (r: RepoFiles)
    ensures
        r.config matches Some(c) && c@ == "config.json"@,
        r.weights@ == "model.q8.gguf"@,
        r.tokenizer@ == "tokenizer.json"@,
        voice_list(r.voices@) == seq![("default"@, "default-voice.safetensors"@)],
        !r.voices_optional,
{
    let voices = vec![
        RepoVoice { name: "default".to_owned(), file: "default-voice.safetensors".to_owned() },
    ];
    assert(voice_list(voices@) =~= seq![("default"@, "default-voice.safetensors"@)]);
    RepoFiles {
        config: Some("config.json"),
        weights: "model.q8.gguf",
        tokenizer: "tokenizer.json",
        voices,
        voices_optional: false,
    }
}

/// The voices of the published checkpoint, and their files.
pub open spec fn published_voice_files() -> Seq<(Seq<char>, Seq<char>)> {
    Seq::new(
        published_voices().len(),
        |i: int| (published_voices()[i], embedding_file(published_voices()[i])),
    )
}

/// The files of the published checkpoint, whose config is known and whose voices are optional.
pub fn published_files() -> (r: RepoFiles)
    ensures
        r.config is None,
        r.weights@ == DEFAULT_MODEL_FILE@,
        r.tokenizer@ == "tokenizer.json"@,
        voice_list(r.voices@) == published_voice_files(),
        r.voices_optional,
{
    let names = voices();
    let ghost want = published_voice_files();
    let mut found: Vec<RepoVoice> = Vec::new();
    for i in 0..names.len()
        invariant
            text::texts(names@) == published_voices(),
            want == published_voice_files(),
            voice_list(found@) == want.take(i as int),
    {
        let ghost before = found@;
        let name = names[i].clone();
        let file = voice_file(name.as_str());
        assert(name@ == text::texts(names@)[i as int]);
        found.push(RepoVoice { name, file });
        assert(voice_list(found@) =~= voice_list(before).push((name@, file@)));
        assert(want.take(i + 1) =~= want.take(i as int).push((name@, file@)));
    }
    assert(text::texts(names@).len() == names@.len());
    assert(want.take(names@.len() as int) =~= want);
    RepoFiles {
        config: None,
        weights: DEFAULT_MODEL_FILE,
        tokenizer: "tokenizer.json",
        voices: found,
        voices_optional: true,
    }
}

/// The weights file beside a config: an unquantized checkpoint, else a quantized one. `dir` is
/// how the directory is shown.
pub fn model_file(has_safetensors: bool, has_gguf: bool, dir: &str) -> (r: Result<&'static str>)
    ensures
        match r {
            Ok(name) => if has_safetensors {
                name@ == "model.safetensors"@
            } else {
                has_gguf && name@ == "model.q8.gguf"@
            },
            Err(e) => !has_safetensors && !has_gguf && e@ == Failure::NotFound(
                "model file not found in directory "@ + dir@
                    + "; expected model.safetensors or model.gguf"@,
            ),
        },
{
    if has_safetensors {
        Ok("model.safetensors")
    } else if has_gguf {
        Ok("model.q8.gguf")
    } else {
        Err(
            Error::NotFound(
                text::glue3(
                    "model file not found in directory ",
                    dir,
                    "; expected model.safetensors or model.gguf",
                ),
            ),
        )
    }
}

/// The voice that a file of a voice directory holds, keyed by its stem: only safetensors files
/// hold one.
pub fn voice_of_file(extension: Option<&str>, stem: Option<&str>) -> (r: Option<String>)
    ensures
        match (extension, stem) {
            (Some(ext), Some(stem)) => if ext@ == "safetensors"@ {
                r matches Some(name) && name@ == stem@
            } else {
                r is None
            },
            _ => r is None,
        },
{
    match (extension, stem) {
        (Some(ext), Some(stem)) => if text::same(ext, "safetensors") {
            Some(stem.to_owned())
        } else {
            None
        },
        _ => None,
    }
}

/// The voice that clients get unless they ask for another: the first by name.
pub fn default_voice(voices: &Vec<String>) -> (r: Result<String>)
    ensures
        match r {
            Ok(name) => voices@.len() > 0 && name@ == text::texts(voices@)[0],
            Err(e) => voices@.len() == 0 && e@ == Failure::NotFound(
                "no voice embeddings found in model"@,
            ),
        },
{
    if voices.len() == 0 {
        return Err(Error::NotFound("no voice embeddings found in model".to_owned()));
    }
    Ok(voices[0].clone())
}

/// The samples of a codec frame, to the nearest whole one.
pub open spec fn samples_per_frame(sample_rate: nat, rate: FrameRate) -> nat {
    ((2 * sample_rate * rate.den + rate.num) / (2 * rate.num as int)) as nat
}

/// The samples of a codec frame, to the nearest whole one.
pub fn frame_size(sample_rate: u32, rate: FrameRate) -> (r: u32)
    requires
        rate.num > 0,
        samples_per_frame(sample_rate as nat, rate) <= u32::MAX,
    ensures
        r == samples_per_frame(sample_rate as nat, rate),
{
    let a: u128 = sample_rate as u128;
    let b: u128 = rate.den as u128;
    assert(a * b <= 0xffff_ffff * 0xffff_ffff) by (nonlinear_arith)
        requires
            a <= 0xffff_ffff,
            b <= 0xffff_ffff,
    ;
    let twice: u128 = 2 * (a * b) + rate.num as u128;
    assert(2 * (a * b) == (2 * a) * b) by (nonlinear_arith);
    let frames: u128 = twice / (2 * rate.num as u128);
    frames as u32
}

/// The seed of one stream of a connection.
pub open spec fn seed_of(seed_base: u64, stream_id: u32) -> u64 {
    seed_base ^ (((stream_id * SEED_SPREAD) % 0x1_0000_0000_0000_0000) as u64)
}

/// The seed of one stream of a connection.
pub fn stream_seed(seed_base: u64, stream_id: u32) -> (r: u64)
    ensures
        r == seed_of(seed_base, stream_id),
{
    let spread: u64 = (stream_id as u64).wrapping_mul(SEED_SPREAD);
    seed_base ^ spread
}

/// Streams of one server are never given the same seed.
pub proof fn streams_get_seeds_of_their_own(seed_base: u64, a: u32, b: u32)
    requires
        a != b,
    ensures
        seed_of(seed_base, a) != seed_of(seed_base, b),
{
    let m: int = 0x1_0000_0000_0000_0000;
    let x = ((a * SEED_SPREAD) % m) as u64;
    let y = ((b * SEED_SPREAD) % m) as u64;
    // 0xF1DE83E19937733D undoes the spread: their product is one more than a multiple of 2^64.
    let undo: int = 0xF1DE_83E1_9937_733D;
    let k: int = (SEED_SPREAD as int * undo - 1) / m;
    assert(SEED_SPREAD as int * undo == k * m + 1);
    if x == y {
        let d = (a - b) * SEED_SPREAD;
        vstd::arithmetic::div_mod::lemma_fundamental_div_mod(a * SEED_SPREAD as int, m);
        vstd::arithmetic::div_mod::lemma_fundamental_div_mod(b * SEED_SPREAD as int, m);
        let qa = (a * SEED_SPREAD) / m;
        let qb = (b * SEED_SPREAD) / m;
        assert((a - b) * SEED_SPREAD == m * (qa - qb)) by (nonlinear_arith)
            requires
                a * SEED_SPREAD == m * qa + x,
                b * SEED_SPREAD == m * qb + y,
                x == y,
        ;
        let q = qa - qb;
        let diff: int = a - b;
        let spread: int = SEED_SPREAD as int;
        assert(diff == m * (q * undo - diff * k)) by (nonlinear_arith)
            requires
                diff * spread == m * q,
                spread * undo == k * m + 1,
        ;
        let w = q * undo - diff * k;
        assert(w == 0) by (nonlinear_arith)
            requires
                diff == m * w,
                -0x1_0000_0000 < diff < 0x1_0000_0000,
                m == 0x1_0000_0000_0000_0000,
        ;
        assert(false);
    }
    assert(seed_base ^ x != seed_base ^ y) by (bit_vector)
        requires
            x != y,
    ;
}

/// `id` up to its first slash, or nothing.
pub open spec fn owner_of(id: Seq<char>) -> Seq<char> {
    if id.contains('/') {
        id.take(id.index_of_first('/')->0)
    } else {
        Seq::empty()
    }
}

/// `id` behind its first slash, or all of it.
pub open spec fn name_in(id: Seq<char>) -> Seq<char> {
    if id.contains('/') {
        id.skip(id.index_of_first('/')->0 + 1)
    } else {
        id
    }
}

/// `hf_hub::split_id` splits the id of a repository at its first slash, into owner and name. An
/// id without a slash has no owner.
pub assume_specification[ hf_hub::split_id ](id: &str) -> (r: (&str, &str))
    ensures
        r.0@ == owner_of(id@),
        r.1@ == name_in(id@),
;

/// A repository on the Hub.
#[derive(Debug)]
pub struct HfRepo {
    pub owner: String,
    pub name: String,
    pub repo_id: String,
}

impl HfRepo {
    /// The model repository `repo_id`, such as `kyutai/pocket-tts`.
    pub fn model(repo_id: &str) -> (r: Self)
        ensures
            r.owner@ == owner_of(repo_id@),
            r.name@ == name_in(repo_id@),
            r.repo_id@ == repo_id@,
    {
        let (owner, name) = hf_hub::split_id(repo_id);
        HfRepo { owner: owner.to_owned(), name: name.to_owned(), repo_id: repo_id.to_owned() }
    }

    /// What a file that could not be fetched is reported with: an HTTP or authentication failure
    /// names neither the file nor the repository.
    pub fn fetch_context(&self, filename: &str) -> (r: String)
        ensures
            r@ == "failed to fetch `"@ + filename@ + "` from model repo `"@ + self.repo_id@ + "`"@,
    {
        let mut m = text::glue3("failed to fetch `", filename, "` from model repo `");
        m.append(self.repo_id.as_str());
        m.append("`");
        m
    }
}

/// An id that is split at a slash is put together again by it.
pub proof fn ids_are_split_without_loss(id: Seq<char>)
    ensures
        id.contains('/') ==> owner_of(id) + seq!['/'] + name_in(id) == id,
        !id.contains('/') ==> owner_of(id) + name_in(id) == id,
        !owner_of(id).contains('/'),
{
    if id.contains('/') {
        id.index_of_first_ensures('/');
        let i = id.index_of_first('/')->0;
        assert(owner_of(id) + seq!['/'] + name_in(id) =~= id);
    } else {
        assert(owner_of(id) + name_in(id) =~= id);
    }
}

/// What the server runs on is what was asked for: the device of the one flag that is set, or the
/// CPU without any; and it starts only where the build has that device, and quantized weights
/// only on the CPU.
pub proof fn the_server_runs_on_what_was_asked_for(
    flags: BackendFlags,
    quant: Option<&str>,
    built: Backends,
    r: Result<(DeviceKind, Quant)>,
)
    requires
        call_ensures(choose_backend, (flags, quant, built), r),
    ensures
        r matches Ok((device, format)) ==> {
            &&& flags.cuda <==> device == DeviceKind::Cuda
            &&& flags.vulkan <==> device == DeviceKind::Vulkan
            &&& flags.metal <==> device == DeviceKind::Metal
            &&& device != DeviceKind::Auto
            &&& device == DeviceKind::Cuda ==> built.cuda
            &&& device == DeviceKind::Vulkan ==> built.vulkan
            &&& device == DeviceKind::Metal ==> built.metal
            &&& format != Quant::F32 ==> device == DeviceKind::Cpu
            &&& quant is None ==> format == Quant::F32
        },
        quant is None && r is Err ==> {
            ||| flags.cuda && (flags.vulkan || flags.metal || !built.cuda)
            ||| flags.vulkan && (flags.metal || !built.vulkan)
            ||| flags.metal && !built.metal
        },
{
}

/// A frame has as many samples as it lasts for, to the nearest: exactly so where that is a whole
/// number.
pub proof fn a_frame_has_the_samples_it_lasts_for(sample_rate: u32, rate: FrameRate, samples: u32)
    requires
        rate.num > 0,
        call_ensures(frame_size, (sample_rate, rate), samples),
    ensures
        2 * samples * rate.num <= 2 * sample_rate * rate.den + rate.num,
        2 * samples * rate.num + rate.num > 2 * sample_rate * rate.den,
{
    let a = 2 * sample_rate * rate.den + rate.num;
    let d = 2 * rate.num as int;
    vstd::arithmetic::div_mod::lemma_fundamental_div_mod(a as int, d);
    let q = a as int / d;
    assert(0 <= a as int % d < d);
    assert(q >= 0) by (nonlinear_arith)
        requires
            d * q > -d,
            d > 0,
    ;
    assert(samples == q);
    assert(d * q == 2 * samples * rate.num) by (nonlinear_arith)
        requires
            d == 2 * rate.num as int,
            q == samples,
    ;
}

} // verus!
