//! One-call speech synthesis.
//!
//! A [`SynthOf`] holds what a loaded model knows besides its weights: the registered voices, the
//! conditioning kept for them, and the settings every request starts from. Running the tensors
//! is the caller's; every decision on the way from "I have some text" to "I have PCM" is here
//! and in the modules below.
use crate::error::{Cause, Error, Failure, Result, TensorError};
use crate::plan::FrameRate;
use crate::preprocess::Normalize;
use crate::text;
use vstd::prelude::*;
use vstd::string::*;

pub mod builder;
pub mod device;
pub mod options;
pub mod primed;
pub mod session;
pub mod stream;
pub mod voices;

pub use builder::{SynthBuilder, TokenizerSource};
pub use device::{Backends, DeviceKind, Quant};
pub use options::{resolve, Defaults, Scalar, SpeechOptions};
pub use primed::{Primed, PrimedCache, MAX_PRIMED};
pub use session::{ChunkPlan, InFlight, SessionOf};
pub use stream::SpeechStream;
pub use voices::Voices;

verus! {

/// A registered voice: the conditioning embedding and its length in frames, plus the encoding of
/// equal-length silence when the model needs one for guidance.
pub struct Voice<E> {
    pub emb: E,
    pub frames: usize,
    pub null_emb: Option<NullEmb<E>>,
}

/// The encoding of silence, and its length in frames.
pub struct NullEmb<E> {
    pub emb: E,
    pub frames: usize,
}

/// What a loaded model knows besides its weights. `E` is an embedding, `S` a transformer state.
pub struct SynthOf<E, S> {
    voices: Voices<Voice<E>>,
    primed: PrimedCache<S>,
    defaults: Defaults,
    normalize: Normalize,
    /// The model conditions its null branch on nothing at all, rather than on silence.
    null_audio_empty: bool,
    /// The checkpoint carries a speaker encoder.
    has_encoder: bool,
    /// How many sessions were opened.
    sessions: u64,
}

/// Where a generation starts from.
pub enum Start<'a, E, S> {
    /// The model has no voices: empty states, a second one with guidance on.
    Bare,
    /// The voice was primed before.
    Kept(&'a Primed<S>),
    /// The voice has to be primed, into a state that holds its frames.
    Prime(&'a Voice<E>),
}

/// What the null branch is conditioned on.
#[derive(Clone, Copy, Debug, PartialEq, Eq, Structural)]
pub enum NullBranch {
    /// Guidance is off.
    Off,
    /// Nothing at all, in a state of this many frames.
    Empty { frames: usize },
    /// The voice's silence, in a state of this many frames.
    Silence { frames: usize },
}

/// How the null branch of a voice is primed, unless it cannot be.
pub open spec fn null_branch_of(
    frames: usize,
    null_frames: Option<usize>,
    guided: bool,
    null_audio_empty: bool,
) -> Option<NullBranch> {
    if !guided {
        Some(NullBranch::Off)
    } else if null_audio_empty {
        Some(NullBranch::Empty { frames })
    } else {
        match null_frames {
            Some(n) => Some(NullBranch::Silence { frames: n }),
            None => None,
        }
    }
}

impl<E> Voice<E> {
    /// The length of the voice's silence.
    pub open spec fn null_frames(self) -> Option<usize> {
        match self.null_emb {
            Some(n) => Some(n.frames),
            None => None,
        }
    }
}

impl<E, S> SynthOf<E, S> {
    /// The voices by name.
    pub closed spec fn registered(self) -> Map<Seq<char>, Voice<E>> {
        self.voices@
    }

    /// The conditioning that is kept.
    pub closed spec fn kept(self) -> Map<(Seq<char>, bool), Primed<S>> {
        self.primed@
    }

    /// The settings that requests start from.
    pub closed spec fn settings(self) -> Defaults {
        self.defaults
    }

    /// How requests are normalized.
    pub closed spec fn policy(self) -> Normalize {
        self.normalize
    }

    /// Whether the null branch is conditioned on nothing.
    pub closed spec fn null_is_empty(self) -> bool {
        self.null_audio_empty
    }

    /// How many sessions were opened.
    pub closed spec fn opened(self) -> u64 {
        self.sessions
    }

    /// Whether there is a speaker encoder.
    pub closed spec fn can_clone(self) -> bool {
        self.has_encoder
    }

    pub closed spec fn wf(self) -> bool {
        self.voices.wf() && self.primed.wf()
    }

    /// The registered names, sorted.
    pub open spec fn names(self) -> Seq<Seq<char>> {
        voices::sorted_names(self.registered().dom())
    }

    /// Everything but the voices and what is kept for them.
    pub open spec fn same_setup(self, other: Self) -> bool {
        &&& self.settings() == other.settings()
        &&& self.policy() == other.policy()
        &&& self.null_is_empty() == other.null_is_empty()
        &&& self.can_clone() == other.can_clone()
        &&& self.opened() == other.opened()
    }

    /// A model without voices yet.
    pub fn new(
        defaults: Defaults,
        normalize: Normalize,
        null_audio_empty: bool,
        has_encoder: bool,
    ) -> (r: Self)
        ensures
            r.wf(),
            r.registered() == Map::<Seq<char>, Voice<E>>::empty(),
            r.kept() == Map::<(Seq<char>, bool), Primed<S>>::empty(),
            r.settings() == defaults,
            r.policy() == normalize,
            r.null_is_empty() == null_audio_empty,
            r.can_clone() == has_encoder,
            r.opened() == 0,
    {
        SynthOf {
            voices: Voices::new(),
            primed: PrimedCache::new(),
            defaults,
            normalize,
            null_audio_empty,
            has_encoder,
            sessions: 0,
        }
    }

    /// How requests are normalized.
    ///
    /// Every text-taking method applies it already; it is public for callers that tokenize
    /// themselves, and want [`Normalize::apply`] first.
    pub fn normalization(&self) -> (r: Normalize)
        ensures
            r == self.policy(),
    {
        self.normalize
    }

    /// The settings that requests start from.
    pub fn defaults(&self) -> (r: &Defaults)
        ensures
            *r == self.settings(),
    {
        &self.defaults
    }

    /// Registered voice names, sorted.
    pub fn voices(&self) -> (r: Vec<String>)
        requires
            self.wf(),
        ensures
            text::texts(r@) == self.names(),
            voices::lists(text::texts(r@), self.registered().dom()),
    {
        self.voices.names()
    }

    /// True if this checkpoint carries a speaker encoder, which voice cloning from raw audio
    /// requires.
    pub fn supports_voice_cloning(&self) -> (r: bool)
        ensures
            r == self.can_clone(),
    {
        self.has_encoder
    }

    /// Register a voice, replacing any voice of the same name. What was kept for that name is
    /// let go, so that a replaced embedding is never generated from the old conditioning.
    pub fn add_voice(&mut self, name: &str, voice: Voice<E>)
        requires
            old(self).wf(),
        ensures
            final(self).wf(),
            final(self).same_setup(*old(self)),
            final(self).registered() == old(self).registered().insert(name@, voice),
            forall|k: (Seq<char>, bool)| #[trigger]
                final(self).kept().dom().contains(k) <==> old(self).kept().dom().contains(k) && k.0
                    != name@,
            forall|k: (Seq<char>, bool)|
                final(self).kept().dom().contains(k) ==> #[trigger] final(self).kept()[k] == old(
                    self,
                ).kept()[k],
    {
        self.primed.forget(name);
        self.voices.insert(name, voice);
    }

    /// Settle the default voice once the voices are registered: the first by name when the
    /// caller named none, so that a bare request works out of the box. A name that was given has
    /// to be registered.
    pub fn settle_voice(&mut self) -> (r: Result<()>)
        requires
            old(self).wf(),
        ensures
            final(self).wf(),
            final(self).registered() == old(self).registered(),
            final(self).kept() == old(self).kept(),
            final(self).policy() == old(self).policy(),
            final(self).null_is_empty() == old(self).null_is_empty(),
            final(self).can_clone() == old(self).can_clone(),
            final(self).opened() == old(self).opened(),
            final(self).settings() == (Defaults {
                voice: final(self).settings().voice,
                ..old(self).settings()
            }),
            options::shown(final(self).settings().voice) == (match options::shown(
                old(self).settings().voice,
            ) {
                Some(name) => Some(name),
                None => if old(self).names().len() > 0 {
                    Some(old(self).names()[0])
                } else {
                    None
                },
            }),
            match r {
                Ok(_) => match options::shown(final(self).settings().voice) {
                    Some(name) => final(self).registered().dom().contains(name),
                    None => true,
                },
                Err(e) => match options::shown(final(self).settings().voice) {
                    Some(name) => !final(self).registered().dom().contains(name) && e@
                        == (Failure::UnknownVoice { name, known: old(self).names() }),
                    None => false,
                },
            },
    {
        let known = self.voices.names();
        let ghost names = text::texts(known@);
        if self.defaults.voice.is_none() && known.len() > 0 {
            let first = known[0].clone();
            assert(first@ == names[0]);
            self.defaults.voice = Some(first);
        }
        match &self.defaults.voice {
            Some(name) => {
                let there = self.voices.get(name.as_str()).is_some();
                if !there {
                    return Err(Error::UnknownVoice { name: name.clone(), known });
                }
                Ok(())
            },
            None => Ok(()),
        }
    }

    /// Where a generation with `voice` starts from, in a KV budget of `seq_budget`.
    ///
    /// Conditioning is the expensive part and depends only on the voice and on whether guidance
    /// is on, so it happens once per model.
    pub fn primed_state(&self, voice: Option<&str>, seq_budget: usize, guided: bool) -> (r: Result<
        Start<'_, E, S>,
    >)
        requires
            self.wf(),
        ensures
            match voice {
                None => if self.registered().dom() == Set::<Seq<char>>::empty() {
                    r matches Ok(Start::Bare)
                } else {
                    r matches Err(e) && e@ == Failure::NotFound(
                        "no voice selected; this model has "@ + text::joined(self.names(), ", "@),
                    )
                },
                Some(name) => if !self.registered().dom().contains(name@) {
                    r matches Err(e) && e@ == (Failure::UnknownVoice {
                        name: name@,
                        known: self.names(),
                    })
                } else if self.registered()[name@].frames >= seq_budget {
                    r matches Err(e) && e@ == (Failure::VoicePromptTooLong {
                        frames: self.registered()[name@].frames,
                        budget: seq_budget,
                    })
                } else if self.kept().dom().contains((name@, guided)) {
                    r matches Ok(Start::Kept(p)) && *p == self.kept()[(name@, guided)]
                } else {
                    r matches Ok(Start::Prime(v)) && *v == self.registered()[name@]
                },
            },
    {
        let name = match voice {
            None => {
                if self.voices.is_empty() {
                    return Ok(Start::Bare);
                }
                let known = self.voices.names();
                return Err(
                    Error::NotFound(
                        text::glue2(
                            "no voice selected; this model has ",
                            text::join(&known, ", ").as_str(),
                        ),
                    ),
                );
            },
            Some(name) => name,
        };
        let found = match self.voices.get(name) {
            Some(v) => v,
            None => {
                return Err(
                    Error::UnknownVoice { name: name.to_owned(), known: self.voices.names() },
                );
            },
        };
        if found.frames >= seq_budget {
            // Nothing about the text is wrong here, so "split the text" would be useless
            // advice, and the prompt length alone cannot say what budget would actually work.
            return Err(Error::VoicePromptTooLong { frames: found.frames, budget: seq_budget });
        }
        match self.primed.get(name, guided) {
            Some(p) => Ok(Start::Kept(p)),
            None => Ok(Start::Prime(found)),
        }
    }

    /// How many sessions were opened.
    pub fn sessions(&self) -> (r: u64)
        ensures
            r == self.opened(),
    {
        self.sessions
    }

    /// Open a session of `seq_budget`, from a primed state that `prompt_len` slots are taken of.
    /// Every session has a number of its own, which its rights carry.
    pub fn session_at(
        &mut self,
        settings: Defaults,
        frame_rate: FrameRate,
        seq_budget: usize,
        prompt_len: usize,
    ) -> (r: SessionOf)
        requires
            old(self).wf(),
            old(self).opened() < u64::MAX,
            frame_rate.wf(),
        ensures
            final(self).wf(),
            final(self).registered() == old(self).registered(),
            final(self).kept() == old(self).kept(),
            final(self).settings() == old(self).settings(),
            final(self).policy() == old(self).policy(),
            final(self).null_is_empty() == old(self).null_is_empty(),
            final(self).can_clone() == old(self).can_clone(),
            final(self).opened() == old(self).opened() + 1,
            r.wf(),
            r.number() == old(self).opened(),
            r.budget() == seq_budget,
            r.prompt() == prompt_len,
            !r.busy(),
            r.rate() == frame_rate,
            r.policy() == old(self).policy(),
            r.sampling() == (settings.seed, settings.temperature, settings.max_tokens_per_chunk),
    {
        let number: u64 = self.sessions;
        self.sessions = number + 1;
        SessionOf::new(number, settings, frame_rate, self.normalize, seq_budget, prompt_len)
    }

    /// How the null branch of `voice` is primed.
    pub fn null_branch(&self, voice: &Voice<E>, guided: bool) -> (r: Result<NullBranch>)
        ensures
            match r {
                Ok(branch) => null_branch_of(
                    voice.frames,
                    voice.null_frames(),
                    guided,
                    self.null_is_empty(),
                ) == Some(branch),
                Err(e) => null_branch_of(
                    voice.frames,
                    voice.null_frames(),
                    guided,
                    self.null_is_empty(),
                ) is None && e@ == Failure::Unsupported(
                    "this model conditions its CFG null branch on silence (cfg_null_audio_empty=false), which needs the voice's source audio. Register the voice with add_voice_from_pcm instead of a precomputed embedding, or disable CFG."@,
                ),
            },
    {
        if !guided {
            return Ok(NullBranch::Off);
        }
        if self.null_audio_empty {
            return Ok(NullBranch::Empty { frames: voice.frames });
        }
        match &voice.null_emb {
            Some(null) => Ok(NullBranch::Silence { frames: null.frames }),
            None => Err(
                Error::Unsupported(
                    "this model conditions its CFG null branch on silence (cfg_null_audio_empty=false), which needs the voice's source audio. Register the voice with add_voice_from_pcm instead of a precomputed embedding, or disable CFG.".to_owned(),
                ),
            ),
        }
    }

    /// Keep what a voice was just primed into. At [`MAX_PRIMED`] entries, everything kept before
    /// is let go first.
    pub fn keep_primed(&mut self, name: &str, guided: bool, primed: Primed<S>)
        requires
            old(self).wf(),
        ensures
            final(self).wf(),
            final(self).same_setup(*old(self)),
            final(self).registered() == old(self).registered(),
            final(self).kept() == (if old(self).kept().dom().len() >= MAX_PRIMED {
                Map::empty()
            } else {
                old(self).kept()
            }).insert((name@, guided), primed),
    {
        self.primed.keep(name, guided, primed);
    }
}

/// The null branch's prefix, when guidance is on. An entry kept with guidance always carries
/// one; its absence is said rather than silently generating without guidance.
pub fn null_prefix<S>(primed: &Primed<S>, guided: bool) -> (r: Result<Option<&S>>)
    ensures
        match r {
            Ok(None) => !guided,
            Ok(Some(s)) => guided && primed.null_state == Some(*s),
            Err(e) => guided && primed.null_state is None && e@ == (Failure::Tensor {
                text: "internal: a primed entry keyed with guidance has no null branch"@,
                cause: Cause::Other,
            }),
        },
{
    if !guided {
        return Ok(None);
    }
    match &primed.null_state {
        Some(s) => Ok(Some(s)),
        None => Err(
            Error::Tensor(
                TensorError::msg("internal: a primed entry keyed with guidance has no null branch"),
            ),
        ),
    }
}

/// What an embedding of the wrong size is refused with.
pub open spec fn wrong_size(what: Seq<char>, values: nat, frames: nat, dim: nat) -> Failure {
    Failure::InvalidArgument(
        what + " has "@ + text::decimal(values) + " values, expected "@ + text::decimal(frames)
            + " x "@ + text::decimal(dim),
    )
}

/// Check that an embedding holds `frames` rows of `dim` values, under the name it is refused
/// with.
fn check_size(what: &str, values: usize, frames: usize, dim: usize) -> (r: Result<()>)
    requires
        frames * dim <= usize::MAX,
    ensures
        match r {
            Ok(_) => values == frames * dim,
            Err(e) => values != frames * dim && e@ == wrong_size(
                what@,
                values as nat,
                frames as nat,
                dim as nat,
            ),
        },
{
    if values != frames * dim {
        let mut m = text::glue3(what, " has ", text::decimal_of(values as u64).as_str());
        m.append(" values, expected ");
        m.append(text::decimal_of(frames as u64).as_str());
        m.append(" x ");
        m.append(text::decimal_of(dim as u64).as_str());
        return Err(Error::InvalidArgument(m));
    }
    Ok(())
}

/// Check a conditioning embedding that is already in memory, and the encoding of silence beside
/// it: both are laid out as `frames` rows of `dim`.
pub fn check_embedding(
    values: usize,
    frames: usize,
    dim: usize,
    null_values: Option<usize>,
) -> (r: Result<()>)
    requires
        frames * dim <= usize::MAX,
    ensures
        match r {
            Ok(_) => values == frames * dim && match null_values {
                Some(n) => n == frames * dim,
                None => true,
            },
            Err(e) => if values != frames * dim {
                e@ == wrong_size("embedding"@, values as nat, frames as nat, dim as nat)
            } else {
                null_values matches Some(n) && n != frames * dim && e@ == wrong_size(
                    "null embedding"@,
                    n as nat,
                    frames as nat,
                    dim as nat,
                )
            },
        },
{
    match check_size("embedding", values, frames, dim) {
        Ok(_) => {},
        Err(e) => {
            return Err(e);
        },
    }
    match null_values {
        None => Ok(()),
        Some(n) => check_size("null embedding", n, frames, dim),
    }
}

/// How long an audio prompt may be: in samples, and in seconds as they are shown.
pub struct PromptBounds {
    pub sample_rate: usize,
    pub min_len: usize,
    pub max_len: usize,
    pub min_seconds: String,
}

impl<E, S> SynthOf<E, S> {
    /// How many samples of an audio prompt are used for cloning a voice: longer input is
    /// trimmed, shorter input is an error. `seconds` is how long the prompt is, as it is shown.
    pub fn prompt_len(&self, samples: usize, seconds: &str, bounds: &PromptBounds) -> (r: Result<
        usize,
    >)
        ensures
            match r {
                Ok(n) => self.can_clone() && samples >= bounds.min_len && n == (if samples
                    <= bounds.max_len {
                    samples
                } else {
                    bounds.max_len
                }),
                Err(e) => if !self.can_clone() {
                    e@ == Failure::Unsupported(
                        "this checkpoint has no speaker encoder, so it cannot clone voices"@,
                    )
                } else {
                    samples < bounds.min_len && e@ == Failure::InvalidArgument(
                        "voice prompt is too short: got "@ + text::decimal(samples as nat)
                            + " samples ("@ + seconds@ + "s at "@ + text::decimal(
                            bounds.sample_rate as nat,
                        ) + "Hz), need at least "@ + text::decimal(bounds.min_len as nat) + " ("@
                            + bounds.min_seconds@ + "s)"@,
                    )
                },
            },
    {
        if !self.has_encoder {
            return Err(
                Error::Unsupported(
                    "this checkpoint has no speaker encoder, so it cannot clone voices".to_owned(),
                ),
            );
        }
        if samples < bounds.min_len {
            let mut m = text::glue3(
                "voice prompt is too short: got ",
                text::decimal_of(samples as u64).as_str(),
                " samples (",
            );
            m.append(seconds);
            m.append("s at ");
            m.append(text::decimal_of(bounds.sample_rate as u64).as_str());
            m.append("Hz), need at least ");
            m.append(text::decimal_of(bounds.min_len as u64).as_str());
            m.append(" (");
            m.append(bounds.min_seconds.as_str());
            m.append("s)");
            return Err(Error::InvalidArgument(m));
        }
        if samples <= bounds.max_len {
            Ok(samples)
        } else {
            Ok(bounds.max_len)
        }
    }

    /// Whether cloning a voice has to encode silence as well: only for guidance, and only when
    /// the model conditions its null branch on silence rather than on nothing at all.
    pub fn wants_silence(&self) -> (r: bool)
        ensures
            r == !self.null_is_empty(),
    {
        !self.null_audio_empty
    }

    /// No more than [`MAX_PRIMED`] prefixes are ever kept.
    pub proof fn kept_is_bounded(self)
        requires
            self.wf(),
        ensures
            self.kept().dom().finite(),
            self.kept().dom().len() <= MAX_PRIMED,
    {
        self.primed.is_bounded();
    }
}

/// A voice is conditioned on once: what is kept for it is there for the next request, as long as
/// neither the cap nor a new registration of the voice lets it go.
pub proof fn a_voice_is_primed_once<E, S>(
    before: SynthOf<E, S>,
    after: SynthOf<E, S>,
    name: Seq<char>,
    guided: bool,
    primed: Primed<S>,
    other: (Seq<char>, bool),
)
    requires
        after.kept() == (if before.kept().dom().len() >= MAX_PRIMED {
            Map::empty()
        } else {
            before.kept()
        }).insert((name, guided), primed),
    ensures
        after.kept().dom().contains((name, guided)),
        after.kept()[(name, guided)] == primed,
        before.kept().dom().len() < MAX_PRIMED && before.kept().dom().contains(other) && other != (
            name,
            guided,
        ) ==> after.kept().dom().contains(other) && after.kept()[other] == before.kept()[other],
{
}

/// A generation starts from the voice that it names: from what is kept for that voice and that
/// guidance if there is something, and from the voice itself otherwise. A voice that is not
/// registered, or whose prompt leaves no slot of the budget, starts nothing; neither does a
/// request without a voice, unless the model has none.
pub proof fn a_generation_starts_from_its_voice<E, S>(
    synth: SynthOf<E, S>,
    voice: Option<&str>,
    budget: usize,
    guided: bool,
    r: Result<Start<'_, E, S>>,
)
    requires
        synth.wf(),
        call_ensures(SynthOf::<E, S>::primed_state, (&synth, voice, budget, guided), r),
    ensures
        match (voice, r) {
            (Some(name), Ok(Start::Kept(p))) => {
                &&& synth.kept().dom().contains((name@, guided))
                &&& *p == synth.kept()[(name@, guided)]
                &&& synth.registered().dom().contains(name@)
                &&& synth.registered()[name@].frames < budget
            },
            (Some(name), Ok(Start::Prime(v))) => {
                &&& !synth.kept().dom().contains((name@, guided))
                &&& synth.registered().dom().contains(name@)
                &&& *v == synth.registered()[name@]
                &&& v.frames < budget
            },
            (Some(name), Ok(Start::Bare)) => false,
            (None, Ok(start)) => start is Bare && forall|k: Seq<char>|
                !synth.registered().dom().contains(k),
            (Some(name), Err(e)) => if synth.registered().dom().contains(name@) {
                synth.registered()[name@].frames >= budget && e@ is VoicePromptTooLong
            } else {
                e@ is UnknownVoice
            },
            (None, Err(e)) => e@ is NotFound && synth.registered().dom() != Set::<
                Seq<char>,
            >::empty(),
        },
{
}

/// Guidance that is asked for is guidance that is given, or an error: the null branch is off if
/// and only if guidance is, and is otherwise conditioned on nothing or on the voice's own
/// silence, as the model has it.
pub proof fn guidance_is_never_left_out<E, S>(
    synth: SynthOf<E, S>,
    voice: Voice<E>,
    guided: bool,
    r: Result<NullBranch>,
)
    requires
        call_ensures(SynthOf::<E, S>::null_branch, (&synth, &voice, guided), r),
    ensures
        !guided <==> r == Ok::<NullBranch, Error>(NullBranch::Off),
        r matches Ok(NullBranch::Empty { frames }) ==> guided && synth.null_is_empty() && frames
            == voice.frames,
        r matches Ok(NullBranch::Silence { frames }) ==> guided && !synth.null_is_empty() && (
        voice.null_emb matches Some(null) && null.frames == frames),
        r is Err <==> guided && !synth.null_is_empty() && voice.null_emb is None,
{
}

/// A voice that is registered anew is never generated from what was kept for the old one: the next
/// generation that names it starts from the new voice.
pub proof fn a_new_voice_is_primed_anew<E, S>(
    call: Seq<&mut SynthOf<E, S>>,
    name: &str,
    voice: Voice<E>,
    budget: usize,
    guided: bool,
    r: Result<Start<'_, E, S>>,
)
    requires
        call.len() == 1,
        call_ensures(SynthOf::<E, S>::add_voice, (call[0], name, voice), ()),
        call_ensures(
            SynthOf::<E, S>::primed_state,
            (final(call[0]), Some(name), budget, guided),
            r,
        ),
        voice.frames < budget,
    ensures
        r matches Ok(Start::Prime(v)) && *v == voice,
{
}

/// What was primed for a voice is what the next generation of that voice starts from, with the
/// same guidance and no other.
pub proof fn what_was_primed_is_kept<E, S>(
    call: Seq<&mut SynthOf<E, S>>,
    name: &str,
    guided: bool,
    primed: Primed<S>,
    budget: usize,
    r: Result<Start<'_, E, S>>,
)
    requires
        call.len() == 1,
        call_ensures(SynthOf::<E, S>::keep_primed, (call[0], name, guided, primed), ()),
        call_ensures(
            SynthOf::<E, S>::primed_state,
            (final(call[0]), Some(name), budget, guided),
            r,
        ),
        call[0].registered().dom().contains(name@),
        call[0].registered()[name@].frames < budget,
    ensures
        r matches Ok(Start::Kept(p)) && *p == primed,
{
}

/// Once the default voice is settled a bare request works: it has a voice that is registered,
/// the first by name when none was given, as soon as there is any.
pub proof fn a_bare_request_finds_a_voice<E, S>(call: Seq<&mut SynthOf<E, S>>, r: Result<()>)
    requires
        call.len() == 1,
        call_ensures(SynthOf::<E, S>::settle_voice, (call[0],), r),
        voices::lists(call[0].names(), call[0].registered().dom()),
        r is Ok,
        call[0].registered().dom() != Set::<Seq<char>>::empty(),
    ensures
        final(call[0]).settings().voice matches Some(name) && call[0].registered().dom().contains(
            name@,
        ) && (call[0].settings().voice is None ==> forall|other: Seq<char>|
            #[trigger] call[0].registered().dom().contains(other) ==> other == name@
                || voices::sorts_before(name@, other)),
{
    let names = call[0].names();
    let dom = call[0].registered().dom();
    if names.len() == 0 {
        assert forall|k: Seq<char>| !dom.contains(k) by {
            assert(!names.contains(k));
        }
        assert(dom =~= Set::<Seq<char>>::empty());
    }
    if call[0].settings().voice is None {
        assert forall|other: Seq<char>| #[trigger] dom.contains(other) implies other == names[0]
            || voices::sorts_before(names[0], other) by {
            assert(names.contains(other));
            let at = names.index_of(other);
            assert(names[at] == other);
            if at > 0 {
                assert(voices::sorts_before(names[0], names[at]));
            }
        }
    }
}

/// An audio prompt is used as far as it may be: all of it, or as much as the longest prompt has.
/// Only one that is too short is refused, or any where voices cannot be cloned.
pub proof fn prompts_are_used_as_far_as_they_may<E, S>(
    synth: SynthOf<E, S>,
    samples: usize,
    seconds: &str,
    bounds: PromptBounds,
    r: Result<usize>,
)
    requires
        call_ensures(SynthOf::<E, S>::prompt_len, (&synth, samples, seconds, &bounds), r),
    ensures
        r is Ok <==> synth.can_clone() && samples >= bounds.min_len,
        r matches Ok(used) ==> used <= samples && used <= bounds.max_len && (used == samples || used
            == bounds.max_len),
{
}

/// An embedding in memory is taken if and only if it has a value for every frame and channel, and
/// its silence as many.
pub proof fn embeddings_hold_a_value_for_each_channel(
    values: usize,
    frames: usize,
    dim: usize,
    null_values: Option<usize>,
    r: Result<()>,
)
    requires
        frames * dim <= usize::MAX,
        call_ensures(check_embedding, (values, frames, dim, null_values), r),
    ensures
        r is Ok <==> values == frames * dim && (null_values matches Some(n) ==> n == values),
{
}

} // verus!
