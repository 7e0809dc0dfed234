//! The browser builds: one frame per call, because a browser has no threads to hand generation
//! to and must yield to its event loop between frames.
use crate::error::{Cause, Error, Failure, TensorError};
use crate::loader::{self, VoicePlan, BROKEN_VOICE_FILE};
use crate::plan::{self, EosPolicy, FrameRate, Tail};
use crate::preprocess::rewrite::{self, Rules};
use crate::preprocess::{self, Normalize};
use crate::synth::session::{self, ChunkPlan, Prepared};
use crate::text;
use vstd::prelude::*;
use vstd::string::*;

verus! {

/// Spare KV positions on top of what an utterance is calculated to need.
pub const SEQ_BUDGET_SLACK: usize = 16;

/// A failure that is only a message.
pub open spec fn fails_with(e: TensorError, text: Seq<char>) -> bool {
    e.text@ == text && e.cause == Cause::Other
}

/// The weight formats of the CPU build.
#[derive(Clone, Copy, Debug, PartialEq, Eq, Structural)]
pub enum CpuQuant {
    F32,
    Q8,
}

impl CpuQuant {
    pub fn parse(s: &str) -> (r: Result<Self, TensorError>)
        ensures
            match r {
                Ok(q) => s@ == (match q {
                    CpuQuant::F32 => "f32"@,
                    CpuQuant::Q8 => "q8"@,
                }),
                Err(e) => s@ != "f32"@ && s@ != "q8"@ && fails_with(
                    e,
                    "unsupported quantization '"@ + s@ + "', expected 'f32' or 'q8'"@,
                ),
            },
    {
        if text::same(s, "f32") {
            Ok(CpuQuant::F32)
        } else if text::same(s, "q8") {
            Ok(CpuQuant::Q8)
        } else {
            Err(
                TensorError {
                    text: text::glue3(
                        "unsupported quantization '",
                        s,
                        "', expected 'f32' or 'q8'",
                    ),
                    cause: Cause::Other,
                },
            )
        }
    }
}

/// What a page asks for when it makes a model.
#[derive(Clone, Copy, Debug)]
pub struct Settings {
    pub quant: CpuQuant,
    pub normalize: Normalize,
    pub rules: Rules,
}

/// The settings that a page names: the weight format, then the word rewrites, all of them unless
/// it says otherwise, then the language.
pub fn parse_settings(quant: &str, lang: &str, rewrites: Option<&str>) -> (r: Result<
    Settings,
    TensorError,
>)
    ensures
        ({
            let rules = match rewrites {
                Some(list) => rewrite::rules_of(list@),
                None => Some(set![rewrite::Rule::Numbers]),
            };
            let known = quant@ == "f32"@ || quant@ == "q8"@;
            match r {
                Ok(s) => {
                    &&& quant@ == (match s.quant {
                        CpuQuant::F32 => "f32"@,
                        CpuQuant::Q8 => "q8"@,
                    })
                    &&& rules == Some(s.rules@)
                    &&& preprocess::policy_of(lang@) == Some(s.normalize)
                },
                Err(e) => if !known {
                    fails_with(
                        e,
                        "unsupported quantization '"@ + quant@ + "', expected 'f32' or 'q8'"@,
                    )
                } else if rules is None {
                    fails_with(e, rewrite::unknown_rule(rewrites->0@).message())
                } else {
                    preprocess::policy_of(lang@) is None && fails_with(
                        e,
                        preprocess::unknown_lang(text::lowercase(lang@)).message(),
                    )
                },
            }
        }),
{
    let quant = match CpuQuant::parse(quant) {
        Ok(q) => q,
        Err(e) => {
            return Err(e);
        },
    };
    let rules = match rewrites {
        Some(list) => match Rules::parse(list) {
            Ok(rules) => rules,
            Err(e) => {
                return Err(TensorError { text: e.message(), cause: Cause::Other });
            },
        },
        None => Rules::all(),
    };
    let normalize = match Normalize::parse(lang) {
        Ok(n) => n,
        Err(e) => {
            return Err(TensorError { text: e.message(), cause: Cause::Other });
        },
    };
    Ok(Settings { quant, normalize, rules })
}

/// A text as it goes to the tokenizer: normalized, and then with its words rewritten. Without
/// normalization it goes there as written.
pub fn prepare_words(text: &str, settings: &Settings) -> (r: String)
    ensures
        r@ == (match settings.normalize {
            Normalize::Off => text@,
            Normalize::For(lang) => rewrite::all_rewritten(
                preprocess::normalized(text@, lang),
                lang,
                settings.rules@,
            ),
        }),
{
    match settings.normalize {
        Normalize::Off => text.to_owned(),
        Normalize::For(lang) => {
            let normal = preprocess::normalize_text(text, lang);
            rewrite::rewrite_words(normal.as_str(), lang, settings.rules)
        },
    }
}

/// The bytes that a GGUF file starts with.
pub open spec fn gguf(bytes: Seq<u8>) -> bool {
    bytes.len() >= 4 && bytes[0] == 0x47 && bytes[1] == 0x47 && bytes[2] == 0x55 && bytes[3] == 0x46
}

/// Whether weights are in a GGUF file, told by its first bytes.
pub fn is_gguf(bytes: &[u8]) -> (r: bool)
    ensures
        r == gguf(bytes@),
{
    bytes.len() >= 4 && bytes[0] == 0x47 && bytes[1] == 0x47 && bytes[2] == 0x55 && bytes[3] == 0x46
}

/// The name of the KV cache of a layer in a voice file.
pub open spec fn cache_name(layer: nat) -> Seq<char> {
    "transformer.layers."@ + text::decimal(layer) + ".self_attn/cache"@
}

/// The name of the KV cache of a layer in a voice file.
pub fn kv_cache_name(layer: usize) -> (r: String)
    ensures
        r@ == cache_name(layer as nat),
{
    text::glue3(
        "transformer.layers.",
        text::decimal_of(layer as u64).as_str(),
        ".self_attn/cache",
    )
}

/// A tensor of a voice file: its name, whether it holds single-precision numbers, and its
/// dimensions.
#[derive(Debug)]
pub struct StoredTensor {
    pub name: String,
    pub single: bool,
    pub dims: Vec<usize>,
}

/// The names of a list of tensors.
pub open spec fn stored_names(tensors: Seq<StoredTensor>) -> Seq<Seq<char>> {
    Seq::new(tensors.len(), |i: int| tensors[i].name@)
}

/// A list of tensors by name.
pub open spec fn by_name(tensors: Seq<StoredTensor>) -> Map<Seq<char>, (bool, Seq<usize>)> {
    Map::new(
        |k: Seq<char>| stored_names(tensors).contains(k),
        |k: Seq<char>|
            {
                let t = tensors[stored_names(tensors).index_of(k)];
                (t.single, t.dims@)
            },
    )
}

/// The tensors of a safetensors file, each with whether it holds single-precision numbers and
/// with its dimensions, or `None` when it is no such file. Tensors of another type than f16,
/// bf16, f32, i64 or u8 are left out.
pub uninterp spec fn stored_tensors(file: Seq<u8>) -> Option<Map<Seq<char>, (bool, Seq<usize>)>>;

/// `xn::safetensors::load_from_buffer` reads a safetensors file into a map of its tensors, by
/// name; `TypedTensor::shape` gives the dimensions of each. Which tensors those are depends on
/// the bytes alone. The order they are listed in does not, and neither does the text that a
/// broken file is complained about with. The end of the declared data, the header and its length
/// are added up unchecked there, so the sum has to fit.
#[verifier::external_body]
pub(crate) fn stored_in(file: &[u8]) -> (r: Result<Vec<StoredTensor>, String>)
    requires
        loader::adds_up(file@),
    ensures
        match r {
            Ok(tensors) => stored_names(tensors@).no_duplicates() && stored_tensors(file@) == Some(
                by_name(tensors@),
            ),
            Err(_) => stored_tensors(file@) is None,
        },
{
    let map = match xn::safetensors::load_from_buffer(file, &xn::CPU) {
        Ok(map) => map,
        Err(e) => return Err(e.to_string()),
    };
    let is_single = |t: &xn::TypedTensor<_>| matches!(t, xn::TypedTensor::F32(_));
    Ok(map.into_iter().map(|(name, t)| {
        StoredTensor { name, single: is_single(&t), dims: t.shape().dims().to_vec() }
    }).collect())
}

/// The first of some tensors with a name.
fn find_stored<'a>(tensors: &'a Vec<StoredTensor>, name: &str) -> (r: Option<&'a StoredTensor>)
    requires
        stored_names(tensors@).no_duplicates(),
    ensures
        match r {
            Some(t) => by_name(tensors@).dom().contains(name@) && by_name(tensors@)[name@] == (
                t.single,
                t.dims@,
            ),
            None => !by_name(tensors@).dom().contains(name@),
        },
{
    let ghost names = stored_names(tensors@);
    for i in 0..tensors.len()
        invariant
            names == stored_names(tensors@),
            names.no_duplicates(),
            forall|j: int| 0 <= j < i ==> names[j] != name@,
    {
        if text::same(tensors[i].name.as_str(), name) {
            assert(names[i as int] == name@);
            assert(names.contains(name@));
            assert(names.index_of(name@) == i);
            return Some(&tensors[i]);
        }
    }
    None
}

/// What is wrong with the KV cache of a layer.
pub enum CacheFault {
    /// It is not there, or holds other numbers than single-precision ones.
    NotSingle,
    /// It has not five dimensions: `[2, batch, seq, heads, head_dim]`.
    Rank(Seq<usize>),
    /// It does not hold keys and values.
    Pair(usize),
}

/// What is wrong with the KV cache of a layer, if anything is.
pub open spec fn cache_fault(
    stored: Map<Seq<char>, (bool, Seq<usize>)>,
    layer: nat,
) -> Option<CacheFault> {
    let name = cache_name(layer);
    if !stored.dom().contains(name) || !stored[name].0 {
        Some(CacheFault::NotSingle)
    } else if stored[name].1.len() != 5 {
        Some(CacheFault::Rank(stored[name].1))
    } else if stored[name].1[0] != 2 {
        Some(CacheFault::Pair(stored[name].1[0]))
    } else {
        None
    }
}

/// The first layer at fault, and what is wrong with it.
pub open spec fn first_fault(
    stored: Map<Seq<char>, (bool, Seq<usize>)>,
    num_layers: nat,
) -> Option<(nat, CacheFault)>
    decreases num_layers,
{
    if num_layers == 0 {
        None
    } else {
        match first_fault(stored, (num_layers - 1) as nat) {
            Some(found) => Some(found),
            None => match cache_fault(stored, (num_layers - 1) as nat) {
                Some(fault) => Some(((num_layers - 1) as nat, fault)),
                None => None,
            },
        }
    }
}

/// What a faulty KV cache is refused with.
pub open spec fn fault_text(layer: nat, fault: CacheFault) -> Seq<char> {
    match fault {
        CacheFault::NotSingle => "expected f32 tensor: "@ + cache_name(layer),
        CacheFault::Rank(dims) => "unexpected number of dims, expected 5, got shape "@
            + text::bracketed(dims),
        CacheFault::Pair(n) => cache_name(layer) + ": expected a first dim of size 2, got "@
            + text::decimal(n as nat),
    }
}

/// The slots that a voice of stored KV caches occupies: those of the first layer.
pub open spec fn cached_len(
    stored: Map<Seq<char>, (bool, Seq<usize>)>,
    num_layers: nat,
) -> usize {
    if num_layers == 0 {
        0
    } else {
        stored[cache_name(0)].1[2]
    }
}

/// What the first layers decide is not undone by later ones.
proof fn first_fault_stays(
    stored: Map<Seq<char>, (bool, Seq<usize>)>,
    some: nat,
    num_layers: nat,
)
    requires
        some <= num_layers,
        first_fault(stored, some) is Some,
    ensures
        first_fault(stored, num_layers) == first_fault(stored, some),
    decreases num_layers,
{
    if some < num_layers {
        first_fault_stays(stored, some, (num_layers - 1) as nat);
    }
}

/// Check the KV caches of a voice file, one per layer: each has to be there, as single-precision
/// numbers, and to hold keys and values. Nothing is run: the slots that the voice occupies are
/// those of the first cache.
pub fn voice_from_kv_cache(tensors: &Vec<StoredTensor>, num_layers: usize) -> (r: Result<
    usize,
    TensorError,
>)
    requires
        stored_names(tensors@).no_duplicates(),
    ensures
        match first_fault(by_name(tensors@), num_layers as nat) {
            None => r == Ok::<_, TensorError>(cached_len(by_name(tensors@), num_layers as nat)),
            Some((layer, fault)) => r matches Err(e) && fails_with(e, fault_text(layer, fault)),
        },
{
    let ghost stored = by_name(tensors@);
    let mut len: usize = 0;
    for i in 0..num_layers
        invariant
            stored == by_name(tensors@),
            stored_names(tensors@).no_duplicates(),
            first_fault(stored, i as nat) is None,
            len == cached_len(stored, i as nat),
    {
        let name = kv_cache_name(i);
        let found = find_stored(tensors, name.as_str());
        let dims: Option<&Vec<usize>> = match found {
            Some(t) => if t.single {
                Some(&t.dims)
            } else {
                None
            },
            None => None,
        };
        let why: Option<String> = match dims {
            None => Some(text::glue2("expected f32 tensor: ", name.as_str())),
            Some(dims) => if dims.len() != 5 {
                Some(
                    text::glue2(
                        "unexpected number of dims, expected 5, got shape ",
                        text::list_of(dims).as_str(),
                    ),
                )
            } else if dims[0] != 2 {
                Some(
                    text::glue3(
                        name.as_str(),
                        ": expected a first dim of size 2, got ",
                        text::decimal_of(dims[0] as u64).as_str(),
                    ),
                )
            } else {
                if i == 0 {
                    len = dims[2];
                }
                None
            },
        };
        if let Some(text) = why {
            proof {
                first_fault_stays(stored, (i + 1) as nat, num_layers as nat);
            }
            return Err(TensorError { text, cause: Cause::Other });
        }
    }
    Ok(len)
}

/// A voice as a file stores it.
#[derive(Debug)]
pub enum StoredVoice {
    /// The KV caches of a voice that was run already, which occupies this many slots.
    Cached { len: usize },
    /// A voice to run.
    Embedding(VoicePlan),
}

impl StoredVoice {
    /// The slots that the voice occupies once it was run.
    pub open spec fn slots(self) -> usize {
        match self {
            StoredVoice::Cached { len } => len,
            StoredVoice::Embedding(plan) => if plan.layout.projected {
                plan.layout.cols
            } else {
                plan.layout.rows
            },
        }
    }

    /// The slots that the voice occupies once it was run.
    pub fn len(&self) -> (r: usize)
        ensures
            r == self.slots(),
    {
        match self {
            StoredVoice::Cached { len } => *len,
            StoredVoice::Embedding(plan) => plan.layout.frames(),
        }
    }
}

/// Read a voice file: either the KV caches that a voice left in each of `num_layers` layers, or a
/// voice embedding for a checkpoint of `model_ext` whose speaker projection takes `proj_in`
/// channels. The two are told apart by tensor name.
///
/// The text that a broken file is complained about with is left open.
pub fn stored_voice(
    file: &[u8],
    num_layers: usize,
    model_ext: Option<&str>,
    proj_in: Option<usize>,
) -> (r: crate::Result<StoredVoice>)
    ensures
        match (loader::adds_up(file@), stored_tensors(file@)) {
            (false, _) => r matches Err(e) && e@ == (Failure::Tensor {
                text: BROKEN_VOICE_FILE@,
                cause: Cause::Other,
            }),
            (true, None) => r matches Err(e) && e@ is Tensor,
            (true, Some(stored)) => if stored.dom().contains(cache_name(0)) {
                match first_fault(stored, num_layers as nat) {
                    None => r == Ok::<_, Error>(
                        StoredVoice::Cached { len: cached_len(stored, num_layers as nat) },
                    ),
                    Some((layer, fault)) => r matches Err(e) && e@ == (Failure::Tensor {
                        text: fault_text(layer, fault),
                        cause: Cause::Other,
                    }),
                }
            } else {
                match r {
                    Ok(StoredVoice::Embedding(plan)) => loader::loaded(
                        Ok(plan),
                        file@,
                        model_ext,
                        proj_in,
                    ),
                    Ok(StoredVoice::Cached { .. }) => false,
                    Err(e) => loader::loaded(Err(e), file@, model_ext, proj_in),
                }
            },
        },
{
    if !loader::does_add_up(file) {
        return Err(
            Error::Tensor(TensorError { text: BROKEN_VOICE_FILE.to_owned(), cause: Cause::Other }),
        );
    }
    let tensors = match stored_in(file) {
        Ok(tensors) => tensors,
        Err(text) => {
            return Err(Error::Tensor(TensorError { text, cause: Cause::Other }));
        },
    };
    let first = kv_cache_name(0);
    if find_stored(&tensors, first.as_str()).is_some() {
        match voice_from_kv_cache(&tensors, num_layers) {
            Ok(len) => Ok(StoredVoice::Cached { len }),
            Err(e) => Err(Error::Tensor(e)),
        }
    } else {
        match loader::load_voice_emb_from_bytes(file, model_ext, proj_in) {
            Ok(plan) => Ok(StoredVoice::Embedding(plan)),
            Err(e) => Err(e),
        }
    }
}

/// The chunk that is being generated.
pub struct Chunk {
    frame_budget: usize,
    eos: EosPolicy,
    step: usize,
    /// The tail has run out: the frame that did it has been returned, and the next call ends the
    /// chunk.
    done: bool,
}

/// A chunk that is being generated.
pub struct Stepping {
    pub budget: nat,
    pub tail: Tail,
    pub step: nat,
    pub done: bool,
}

impl Stepping {
    /// A chunk that was just started.
    pub open spec fn fresh(budget: nat, after_eos: nat) -> Stepping {
        Stepping { budget, tail: Tail::fresh(after_eos), step: 0, done: false }
    }

    /// No frame is left to generate.
    pub open spec fn over(self) -> bool {
        self.done || self.step >= self.budget
    }

    /// After a frame with this EOS flag.
    pub open spec fn after(self, is_eos: bool) -> Stepping {
        Stepping {
            budget: self.budget,
            tail: self.tail.after(is_eos),
            step: self.step + 1,
            done: self.tail.stops(is_eos),
        }
    }
}

impl View for Chunk {
    type V = Stepping;

    closed spec fn view(&self) -> Stepping {
        Stepping {
            budget: self.frame_budget as nat,
            tail: self.eos@,
            step: self.step as nat,
            done: self.done,
        }
    }
}

impl Chunk {
    /// A budget is a machine number.
    pub proof fn budget_fits(self)
        ensures
            self@.budget <= usize::MAX,
    {
    }

    /// Start a chunk of at most `frame_budget` frames.
    pub fn new(frame_budget: usize, frames_after_eos: usize) -> (r: Self)
        ensures
            r@ == Stepping::fresh(frame_budget as nat, frames_after_eos as nat),
    {
        Chunk { frame_budget, eos: EosPolicy::new(frames_after_eos), step: 0, done: false }
    }

    /// No frame is left to generate.
    pub fn is_over(&self) -> (r: bool)
        ensures
            r == self@.over(),
    {
        self.done || self.step >= self.frame_budget
    }

    /// Whether the next frame is the first.
    pub fn is_first(&self) -> (r: bool)
        ensures
            r == (self@.step == 0),
    {
        self.step == 0
    }

    /// A frame was generated and went to the decoder: the frame that says EOS is part of the
    /// output.
    pub fn stepped(&mut self, is_eos: bool)
        requires
            !old(self)@.over(),
        ensures
            final(self)@ == old(self)@.after(is_eos),
    {
        self.done = self.eos.should_stop(is_eos);
        self.step = self.step + 1;
    }
}

/// How many frames a chunk generates from here on, when its frames carry these EOS flags.
pub open spec fn frames_left(s: Stepping, flags: Seq<bool>) -> nat
    decreases flags.len(),
{
    if s.over() || flags.len() == 0 {
        0
    } else {
        1 + frames_left(s.after(flags[0]), flags.skip(1))
    }
}

/// Stepping a chunk frame by frame generates exactly the frames that the tail policy counts.
pub proof fn stepping_emits_what_the_policy_counts(s: Stepping, flags: Seq<bool>)
    requires
        !s.done,
        s.step <= s.budget,
        flags.len() == s.budget - s.step,
    ensures
        frames_left(s, flags) == plan::emitted(s.tail, flags),
    decreases flags.len(),
{
    if flags.len() > 0 {
        let next = s.after(flags[0]);
        if s.tail.stops(flags[0]) {
            assert(frames_left(next, flags.skip(1)) == 0);
        } else {
            stepping_emits_what_the_policy_counts(next, flags.skip(1));
        }
    }
}

/// A generation: the chunks of a text, and the one that is being generated.
struct Generation {
    chunks: Vec<ChunkPlan>,
    next: usize,
    current: Option<Chunk>,
}

/// Where the generation of a model stands.
pub enum Playing {
    /// There is none.
    Idle,
    /// This many chunks are started, of those planned; this one is being generated.
    Running { chunks: Seq<ChunkPlan>, started: nat, current: Option<Stepping> },
}

/// The registered voices of a model, and its generation in progress.
pub struct Model {
    /// The slots that each voice occupies.
    voices: Vec<usize>,
    generation: Option<Generation>,
}

/// What a started generation needs.
#[derive(Clone, Copy, Debug, PartialEq, Eq, Structural)]
pub struct Started {
    pub chunks: usize,
    /// The KV slots of the voice and the longest chunk.
    pub seq_budget: usize,
}

impl Model {
    /// The slots that each voice occupies.
    pub closed spec fn voice_lens(self) -> Seq<usize> {
        self.voices@
    }

    /// Where the generation stands.
    pub closed spec fn playing(self) -> Playing {
        match self.generation {
            None => Playing::Idle,
            Some(g) => Playing::Running {
                chunks: g.chunks@,
                started: g.next as nat,
                current: match g.current {
                    Some(c) => Some(c@),
                    None => None,
                },
            },
        }
    }

    pub closed spec fn wf(self) -> bool {
        match self.generation {
            None => true,
            Some(g) => g.next <= g.chunks@.len(),
        }
    }

    pub fn new() -> (r: Self)
        ensures
            r.wf(),
            r.voice_lens() == Seq::<usize>::empty(),
            r.playing() is Idle,
    {
        Model { voices: Vec::new(), generation: None }
    }

    /// Register a voice that was read from a file, and give it an index.
    pub fn add_voice(&mut self, voice: &StoredVoice) -> (r: usize)
        requires
            old(self).wf(),
        ensures
            final(self).wf(),
            r == old(self).voice_lens().len(),
            final(self).voice_lens() == old(self).voice_lens().push(voice.slots()),
            final(self).playing() == old(self).playing(),
    {
        let index: usize = self.voices.len();
        self.voices.push(voice.len());
        index
    }

    /// Plan a text, given whether its noise can be drawn and how it was split and tokenized.
    ///
    /// The generation before is dropped before anything else can fail, so that a caller that
    /// swallows the error cannot go on stepping and quietly resume the previous utterance. The
    /// noise comes first: a temperature that cannot produce a distribution is refused before any
    /// work is done.
    pub fn start_generation(
        &mut self,
        voice_index: usize,
        noise: Result<(), TensorError>,
        texts: Result<Vec<Prepared>, TensorError>,
        rate: FrameRate,
    ) -> (r: Result<Started, TensorError>)
        requires
            old(self).wf(),
            rate.wf(),
            texts matches Ok(t) ==> forall|i: int|
                0 <= i < t@.len() ==> session::plannable(
                    (#[trigger] t@[i]).tokens@.len(),
                    rate,
                ) && (voice_index < old(self).voice_lens().len() ==> old(
                    self,
                ).voice_lens()[voice_index as int] + t@[i].tokens@.len() + plan::capped(
                    plan::frames_for(t@[i].tokens@.len(), rate),
                ) <= usize::MAX),
        ensures
            final(self).wf(),
            final(self).voice_lens() == old(self).voice_lens(),
            match (noise, texts) {
                (Err(why), _) => r == Err::<Started, _>(why) && final(self).playing() is Idle,
                (Ok(_), _) if voice_index >= old(self).voice_lens().len() => {
                    &&& final(self).playing() is Idle
                    &&& r matches Err(e) && fails_with(
                        e,
                        "invalid voice index: "@ + text::decimal(voice_index as nat),
                    )
                },
                (Ok(_), Err(why)) => r == Err::<Started, _>(why) && final(self).playing() is Idle,
                (Ok(_), Ok(t)) => if t@.len() == 0 {
                    &&& final(self).playing() is Idle
                    &&& r matches Err(e) && fails_with(
                        e,
                        "nothing to synthesize: the text is empty"@,
                    )
                } else {
                    final(self).playing() matches Playing::Running { chunks, started, current } && {
                        &&& started == 0
                        &&& current is None
                        &&& chunks.len() == t@.len()
                        &&& forall|i: int|
                            0 <= i < t@.len() ==> (#[trigger] chunks[i]).plans(t@[i], rate)
                        &&& r == Ok::<_, TensorError>(
                            Started {
                                chunks: t@.len() as usize,
                                seq_budget: session::needed_slots(
                                    old(self).voice_lens()[voice_index as int] as nat,
                                    chunks,
                                ) as usize,
                            },
                        )
                    }
                },
            },
    {
        self.generation = None;
        match noise {
            Ok(_) => {},
            Err(e) => {
                return Err(e);
            },
        }
        if voice_index >= self.voices.len() {
            return Err(
                TensorError {
                    text: text::glue2(
                        "invalid voice index: ",
                        text::decimal_of(voice_index as u64).as_str(),
                    ),
                    cause: Cause::Other,
                },
            );
        }
        let texts = match texts {
            Ok(texts) => texts,
            Err(e) => {
                return Err(e);
            },
        };
        let voice_len: usize = self.voices[voice_index];
        let count: usize = texts.len();
        let chunks = match session::plan_chunks(texts, rate) {
            Ok(chunks) => chunks,
            Err(e) => {
                return Err(TensorError { text: e.message(), cause: Cause::Other });
            },
        };
        let seq_budget = session::most_slots(voice_len, &chunks);
        self.generation = Some(Generation { chunks, next: 0, current: None });
        Ok(Started { chunks: count, seq_budget })
    }

    /// Start the next chunk, and give its token count. After the last, the generation is over.
    pub fn next_chunk(&mut self) -> (r: Option<usize>)
        requires
            old(self).wf(),
        ensures
            final(self).wf(),
            final(self).voice_lens() == old(self).voice_lens(),
            match old(self).playing() {
                Playing::Idle => r is None && final(self).playing() is Idle,
                Playing::Running { chunks, started, current } => if started < chunks.len() {
                    &&& r matches Some(n) && n == chunks[started as int].tokens@.len()
                    &&& final(self).playing() == (Playing::Running {
                        chunks,
                        started: started + 1,
                        current: Some(
                            Stepping::fresh(
                                chunks[started as int].frame_budget as nat,
                                chunks[started as int].frames_after_eos as nat,
                            ),
                        ),
                    })
                } else {
                    r is None && final(self).playing() is Idle
                },
            },
    {
        let mut taken = None;
        std::mem::swap(&mut taken, &mut self.generation);
        let g = match taken {
            None => {
                return None;
            },
            Some(g) => g,
        };
        if g.next >= g.chunks.len() {
            return None;
        }
        let index: usize = g.next;
        let count: usize = g.chunks[index].tokens.len();
        let current = Chunk::new(g.chunks[index].frame_budget, g.chunks[index].frames_after_eos);
        self.generation = Some(
            Generation { chunks: g.chunks, next: index + 1, current: Some(current) },
        );
        Some(count)
    }

    /// The tokens of the chunk that was started last, if one was.
    pub fn tokens(&self) -> (r: Option<&Vec<u32>>)
        requires
            self.wf(),
        ensures
            match self.playing() {
                Playing::Running { chunks, started, current } => if started > 0 {
                    r matches Some(t) && t@ == chunks[started - 1].tokens@
                } else {
                    r is None
                },
                Playing::Idle => r is None,
            },
    {
        match &self.generation {
            Some(g) => if g.next > 0 {
                Some(&g.chunks[g.next - 1].tokens)
            } else {
                None
            },
            None => None,
        }
    }

    /// Whether to generate a frame of the current chunk, and if so whether it is the first. A
    /// chunk that has no frame left is finished.
    pub fn generation_step(&mut self) -> (r: Option<bool>)
        requires
            old(self).wf(),
        ensures
            final(self).wf(),
            final(self).voice_lens() == old(self).voice_lens(),
            match old(self).playing() {
                Playing::Running { chunks, started, current: Some(c) } => if c.over() {
                    r is None && final(self).playing() == (Playing::Running {
                        chunks,
                        started,
                        current: None,
                    })
                } else {
                    r == Some(c.step == 0) && final(self).playing() == old(self).playing()
                },
                _ => r is None && final(self).playing() == old(self).playing(),
            },
    {
        let mut taken = None;
        std::mem::swap(&mut taken, &mut self.generation);
        match taken {
            None => None,
            Some(g) => {
                match g.current {
                    None => {
                        self.generation = Some(
                            Generation { chunks: g.chunks, next: g.next, current: None },
                        );
                        None
                    },
                    Some(c) => {
                        if c.is_over() {
                            self.generation = Some(
                                Generation { chunks: g.chunks, next: g.next, current: None },
                            );
                            return None;
                        }
                        let first = c.is_first();
                        self.generation = Some(
                            Generation { chunks: g.chunks, next: g.next, current: Some(c) },
                        );
                        Some(first)
                    },
                }
            },
        }
    }

    /// A frame of the current chunk was generated.
    pub fn stepped(&mut self, is_eos: bool)
        requires
            old(self).wf(),
            old(self).playing() matches Playing::Running { chunks, started, current: Some(c) }
                && !c.over(),
        ensures
            final(self).wf(),
            final(self).voice_lens() == old(self).voice_lens(),
            old(self).playing() matches Playing::Running { chunks, started, current: Some(c) }
                && final(self).playing() == (Playing::Running {
                chunks,
                started,
                current: Some(c.after(is_eos)),
            }),
    {
        let mut taken = None;
        std::mem::swap(&mut taken, &mut self.generation);
        if let Some(g) = taken {
            if let Some(c) = g.current {
                let mut c = c;
                c.stepped(is_eos);
                self.generation = Some(
                    Generation { chunks: g.chunks, next: g.next, current: Some(c) },
                );
            }
        }
    }

    /// Drop the generation in progress, if any: it was stopped, or a step of it failed. A failed
    /// step leaves a chunk half prompted or half generated; from now on every call reports the
    /// end instead, so a caller that swallows the error cannot silently skip a sentence.
    pub fn stop_generation(&mut self)
        requires
            old(self).wf(),
        ensures
            final(self).wf(),
            final(self).voice_lens() == old(self).voice_lens(),
            final(self).playing() is Idle,
    {
        self.generation = None;
    }
}

/// A page plays the chunks of a text one after the other: behind the start of a generation, the
/// call that starts a chunk for the k-th time gives the length of the k-th text, whose tokens are
/// then those to prompt with; behind the last text there is no other.
pub proof fn a_page_plays_every_chunk_in_turn(
    start: Seq<&mut Model>,
    voice: usize,
    texts: Vec<Prepared>,
    rate: FrameRate,
    began: Started,
    states: Seq<Model>,
    calls: Seq<&mut Model>,
    counts: Seq<Option<usize>>,
    k: int,
    tokens: Option<&Vec<u32>>,
)
    requires
        start.len() == 1,
        call_ensures(
            Model::start_generation,
            (
                start[0],
                voice,
                Ok::<(), TensorError>(()),
                Ok::<Vec<Prepared>, TensorError>(texts),
                rate,
            ),
            Ok::<Started, TensorError>(began),
        ),
        states.len() == calls.len() + 1,
        counts.len() == calls.len(),
        states[0] == *final(start[0]),
        forall|i: int|
            #![trigger calls[i]]
            0 <= i < calls.len() ==> {
                &&& *calls[i] == states[i]
                &&& *final(calls[i]) == states[i + 1]
                &&& call_ensures(Model::next_chunk, (calls[i],), counts[i])
            },
        0 <= k < calls.len(),
        call_ensures(Model::tokens, (&states[k + 1],), tokens),
    ensures
        began.chunks == texts@.len(),
        k < texts@.len() ==> counts[k] == Some(texts@[k].tokens@.len() as usize) && (
        tokens matches Some(t) && t@ == texts@[k].tokens@),
        k >= texts@.len() ==> counts[k] is None && tokens is None,
{
    a_page_has_started(start, voice, texts, rate, began, states, calls, counts, k);
    assert(*calls[k] == states[k]);
    assert(texts@.len() == texts.len());
    if k < texts@.len() {
        let chunks = states[k].playing()->chunks;
        assert(chunks[k].plans(texts@[k], rate));
        assert(texts@[k].tokens@.len() == texts@[k].tokens.len());
    }
}

proof fn a_page_has_started(
    start: Seq<&mut Model>,
    voice: usize,
    texts: Vec<Prepared>,
    rate: FrameRate,
    began: Started,
    states: Seq<Model>,
    calls: Seq<&mut Model>,
    counts: Seq<Option<usize>>,
    k: int,
)
    requires
        start.len() == 1,
        call_ensures(
            Model::start_generation,
            (
                start[0],
                voice,
                Ok::<(), TensorError>(()),
                Ok::<Vec<Prepared>, TensorError>(texts),
                rate,
            ),
            Ok::<Started, TensorError>(began),
        ),
        states.len() == calls.len() + 1,
        counts.len() == calls.len(),
        states[0] == *final(start[0]),
        forall|i: int|
            #![trigger calls[i]]
            0 <= i < calls.len() ==> {
                &&& *calls[i] == states[i]
                &&& *final(calls[i]) == states[i + 1]
                &&& call_ensures(Model::next_chunk, (calls[i],), counts[i])
            },
        0 <= k < states.len(),
    ensures
        texts@.len() > 0,
        k <= texts@.len() ==> (states[k].playing() matches Playing::Running {
            chunks,
            started,
            current,
        } && started == k && chunks.len() == texts@.len() && forall|i: int|
            0 <= i < texts@.len() ==> (#[trigger] chunks[i]).plans(texts@[i], rate)),
        k > texts@.len() ==> states[k].playing() is Idle,
    decreases k,
{
    if k > 0 {
        a_page_has_started(start, voice, texts, rate, began, states, calls, counts, k - 1);
        assert(*calls[k - 1] == states[k - 1]);
    }
}

/// A page that steps a chunk is asked for frames as long as there are any: the first one from the
/// beginning of speech and the others not; and a step takes nothing away from the text.
pub proof fn a_page_steps_one_chunk(
    ask: Seq<&mut Model>,
    first: Option<bool>,
    step: Seq<&mut Model>,
    is_eos: bool,
    again: Seq<&mut Model>,
    then: Option<bool>,
)
    requires
        ask.len() == 1 && step.len() == 1 && again.len() == 1,
        call_ensures(Model::generation_step, (ask[0],), first),
        *step[0] == *final(ask[0]),
        first is Some,
        call_ensures(Model::stepped, (step[0], is_eos), ()),
        *again[0] == *final(step[0]),
        call_ensures(Model::generation_step, (again[0],), then),
    ensures
        then matches Some(is_first) ==> !is_first,
        ask[0].playing() matches Playing::Running { chunks, started, current } && (
        again[0].playing() matches Playing::Running { chunks: c2, started: s2, current: now }
            && c2 == chunks && s2 == started),
{
}

/// A voice of stored caches is read if and only if every layer has one of single-precision keys and
/// values; it takes the slots that the first layer has.
pub proof fn every_layer_has_its_cache(
    tensors: Vec<StoredTensor>,
    num_layers: usize,
    r: Result<usize, TensorError>,
)
    requires
        stored_names(tensors@).no_duplicates(),
        call_ensures(voice_from_kv_cache, (&tensors, num_layers), r),
    ensures
        r is Ok <==> forall|layer: nat| layer < num_layers ==> #[trigger] cached(tensors@, layer),
        r matches Ok(len) ==> num_layers > 0 ==> exists|i: int|
            0 <= i < tensors@.len() && has_cache(#[trigger] tensors@[i], 0) && tensors@[i].dims@[2]
                == len,
{
    let stored = by_name(tensors@);
    assert forall|layer: nat|
        #![trigger cached(tensors@, layer)]
        #![trigger cache_fault(stored, layer)]
        cache_fault(stored, layer) is None <==> cached(tensors@, layer) by {
        a_sound_cache_is_there(tensors@, layer);
    }
    no_fault_is_no_fault_anywhere(stored, num_layers as nat);
    if r is Ok && num_layers > 0 {
        assert(cache_fault(stored, 0) is None);
        let names = stored_names(tensors@);
        let at = names.index_of(cache_name(0));
        assert(names.contains(cache_name(0)));
        assert(names[at] == cache_name(0));
        assert(has_cache(tensors@[at], 0));
    }
}

/// A tensor that is the KV cache of a layer: of its name, in single precision, with five dimensions
/// of which the first is for keys and values.
pub open spec fn has_cache(t: StoredTensor, layer: nat) -> bool {
    &&& t.name@ == "transformer.layers."@ + text::decimal(layer) + ".self_attn/cache"@
    &&& t.single
    &&& t.dims@.len() == 5
    &&& t.dims@[0] == 2
}

/// One of some tensors is the KV cache of a layer.
pub open spec fn cached(tensors: Seq<StoredTensor>, layer: nat) -> bool {
    exists|i: int| 0 <= i < tensors.len() && has_cache(#[trigger] tensors[i], layer)
}

proof fn a_sound_cache_is_there(tensors: Seq<StoredTensor>, layer: nat)
    requires
        stored_names(tensors).no_duplicates(),
    ensures
        cache_fault(by_name(tensors), layer) is None <==> cached(tensors, layer),
{
    let names = stored_names(tensors);
    let stored = by_name(tensors);
    let name = cache_name(layer);
    if cache_fault(stored, layer) is None {
        let at = names.index_of(name);
        assert(names.contains(name));
        assert(names[at] == name);
        assert(has_cache(tensors[at], layer));
    }
    if exists|i: int| 0 <= i < tensors.len() && has_cache(#[trigger] tensors[i], layer) {
        let i = choose|i: int| 0 <= i < tensors.len() && has_cache(#[trigger] tensors[i], layer);
        assert(names[i] == name);
        assert(names.contains(name));
        assert(names.index_of(name) == i);
    }
}

proof fn no_fault_is_no_fault_anywhere(
    stored: Map<Seq<char>, (bool, Seq<usize>)>,
    num_layers: nat,
)
    ensures
        first_fault(stored, num_layers) is None <==> forall|layer: nat|
            layer < num_layers ==> #[trigger] cache_fault(stored, layer) is None,
    decreases num_layers,
{
    if num_layers > 0 {
        let fewer = (num_layers - 1) as nat;
        no_fault_is_no_fault_anywhere(stored, fewer);
        if first_fault(stored, num_layers) is None {
            assert(first_fault(stored, fewer) is None);
            assert forall|layer: nat| layer < num_layers implies #[trigger] cache_fault(
                stored,
                layer,
            ) is None by {}
        } else if first_fault(stored, fewer) is None {
            assert(cache_fault(stored, fewer) is Some);
        }
    }
}

/// What a page speaks is what it was given: without normalization the text itself; and with it and
/// without rewrites the normalized text.
pub proof fn a_page_speaks_what_it_was_given(text: &str, settings: Settings, words: String)
    requires
        call_ensures(prepare_words, (text, &settings), words),
    ensures
        settings.normalize == Normalize::Off ==> words@ == text@,
        settings.rules@ == Set::<rewrite::Rule>::empty() ==> match settings.normalize {
            Normalize::Off => true,
            Normalize::For(lang) => words@ == preprocess::normalized(text@, lang),
        },
{
    if let Normalize::For(lang) = settings.normalize {
        rewrite::no_rules_change_nothing(preprocess::normalized(text@, lang), lang);
    }
}

} // verus!
