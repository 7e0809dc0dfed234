//! Per-request options, and how they combine with what a synthesizer was configured with.
use crate::error::{Error, Failure, Result};
use crate::text;
use vstd::prelude::*;
use vstd::string::*;

verus! {

/// A single-precision number: its IEEE 754 bits, and how it is shown in a message.
#[derive(Debug)]
pub struct Scalar {
    pub bits: u32,
    pub shown: String,
}

/// The bits of `1.0`, of `-0.0` and of positive infinity.
pub const ONE: u32 = 0x3f80_0000;

pub const MINUS_ZERO: u32 = 0x8000_0000;

pub const INFINITY: u32 = 0x7f80_0000;

impl Scalar {
    /// Not a number, or below zero: every pattern past positive infinity but that of `-0.0`.
    pub open spec fn below_zero_or_nan(self) -> bool {
        self.bits > INFINITY && self.bits != MINUS_ZERO
    }

    /// Two numbers with the same bits and the same rendering.
    pub open spec fn same_as(self, other: Scalar) -> bool {
        self.bits == other.bits && self.shown@ == other.shown@
    }

    /// A copy of this number.
    pub fn copied(&self) -> (r: Self)
        ensures
            r.same_as(*self),
    {
        Scalar { bits: self.bits, shown: self.shown.clone() }
    }
}

/// Two optional numbers that are the same.
pub open spec fn same_scalar(a: Option<Scalar>, b: Option<Scalar>) -> bool {
    match (a, b) {
        (Some(a), Some(b)) => a.same_as(b),
        (None, None) => true,
        _ => false,
    }
}

/// The text of an optional string.
pub open spec fn shown(s: Option<String>) -> Option<Seq<char>> {
    match s {
        Some(s) => Some(s@),
        None => None,
    }
}

/// Per-request overrides. Anything left `None` falls back to what the synthesizer was configured
/// with.
#[derive(Debug)]
pub struct SpeechOptions {
    pub voice: Option<String>,
    pub temperature: Option<Scalar>,
    pub seed: Option<u64>,
    /// Classifier-free guidance coefficient. `1.0` and `None` both disable it.
    pub cfg_coef: Option<Scalar>,
    pub max_tokens_per_chunk: Option<usize>,
}

impl Default for SpeechOptions {
    fn default() -> (r: Self)
        ensures
            r.voice is None,
            r.temperature is None,
            r.seed is None,
            r.cfg_coef is None,
            r.max_tokens_per_chunk is None,
    {
        SpeechOptions {
            voice: None,
            temperature: None,
            seed: None,
            cfg_coef: None,
            max_tokens_per_chunk: None,
        }
    }
}

impl SpeechOptions {
    pub fn voice(self, voice: &str) -> (r: Self)
        ensures
            shown(r.voice) == Some(voice@),
            r == (SpeechOptions { voice: r.voice, ..self }),
    {
        SpeechOptions { voice: Some(voice.to_owned()), ..self }
    }

    pub fn temperature(self, temperature: Scalar) -> (r: Self)
        ensures
            r == (SpeechOptions { temperature: Some(temperature), ..self }),
    {
        SpeechOptions { temperature: Some(temperature), ..self }
    }

    pub fn seed(self, seed: u64) -> (r: Self)
        ensures
            r == (SpeechOptions { seed: Some(seed), ..self }),
    {
        SpeechOptions { seed: Some(seed), ..self }
    }

    pub fn cfg_coef(self, cfg_coef: Scalar) -> (r: Self)
        ensures
            r == (SpeechOptions { cfg_coef: Some(cfg_coef), ..self }),
    {
        SpeechOptions { cfg_coef: Some(cfg_coef), ..self }
    }

    pub fn max_tokens_per_chunk(self, max_tokens: usize) -> (r: Self)
        ensures
            r == (SpeechOptions { max_tokens_per_chunk: Some(max_tokens), ..self }),
    {
        SpeechOptions { max_tokens_per_chunk: Some(max_tokens), ..self }
    }
}

/// Defaults applied to every request unless overridden per call.
#[derive(Debug)]
pub struct Defaults {
    pub voice: Option<String>,
    pub temperature: Scalar,
    pub seed: u64,
    pub cfg_coef: Option<Scalar>,
    pub max_tokens_per_chunk: usize,
}

/// The number a request asks for, or the default.
pub open spec fn chosen<T>(asked: Option<T>, default: T) -> T {
    match asked {
        Some(t) => t,
        None => default,
    }
}

/// The first of two that is there.
pub open spec fn first_of<T>(asked: Option<T>, default: Option<T>) -> Option<T> {
    match asked {
        Some(t) => Some(t),
        None => default,
    }
}

/// Guidance at 1.0 is the identity, so it is left out.
pub open spec fn guidance(coef: Option<Scalar>) -> Option<Scalar> {
    match coef {
        Some(c) => if c.bits == ONE {
            None
        } else {
            Some(c)
        },
        None => None,
    }
}

/// The settings that a request runs with, given what it overrides.
pub open spec fn settles(defaults: Defaults, opts: SpeechOptions, settings: Defaults) -> bool {
    &&& shown(settings.voice) == shown(first_of(opts.voice, defaults.voice))
    &&& settings.temperature.same_as(chosen(opts.temperature, defaults.temperature))
    &&& settings.seed == chosen(opts.seed, defaults.seed)
    &&& same_scalar(settings.cfg_coef, guidance(first_of(opts.cfg_coef, defaults.cfg_coef)))
    &&& settings.max_tokens_per_chunk == chosen(
        opts.max_tokens_per_chunk,
        defaults.max_tokens_per_chunk,
    )
}

/// Merge per-request overrides onto the settings a synthesizer was given.
///
/// A `cfg_coef` of 1.0 becomes `None`: guidance at 1.0 is the identity, and computing it would
/// cost a second forward pass.
///
/// The temperature is checked here rather than where noise is drawn: this is the one place every
/// request passes through, so the default is covered as well as a per-request override. Zero is
/// fine: it is greedy sampling.
pub fn resolve(defaults: &Defaults, opts: &SpeechOptions) -> (r: Result<Defaults>)
    ensures
        match r {
            Ok(settings) => settles(*defaults, *opts, settings) && !chosen(
                opts.temperature,
                defaults.temperature,
            ).below_zero_or_nan(),
            Err(e) => {
                let t = chosen(opts.temperature, defaults.temperature);
                t.below_zero_or_nan() && e@ == Failure::InvalidArgument(
                    "temperature must be >= 0, got "@ + t.shown@,
                )
            },
        },
{
    let temperature = match &opts.temperature {
        Some(t) => t.copied(),
        None => defaults.temperature.copied(),
    };
    if temperature.bits > INFINITY && temperature.bits != MINUS_ZERO {
        return Err(
            Error::InvalidArgument(
                text::glue2("temperature must be >= 0, got ", temperature.shown.as_str()),
            ),
        );
    }
    let voice = match &opts.voice {
        Some(v) => Some(v.clone()),
        None => match &defaults.voice {
            Some(v) => Some(v.clone()),
            None => None,
        },
    };
    let seed: u64 = match opts.seed {
        Some(s) => s,
        None => defaults.seed,
    };
    let coef: Option<&Scalar> = match &opts.cfg_coef {
        Some(c) => Some(c),
        None => match &defaults.cfg_coef {
            Some(c) => Some(c),
            None => None,
        },
    };
    let cfg_coef = match coef {
        Some(c) => if c.bits != ONE {
            Some(c.copied())
        } else {
            None
        },
        None => None,
    };
    let max_tokens_per_chunk: usize = match opts.max_tokens_per_chunk {
        Some(n) => n,
        None => defaults.max_tokens_per_chunk,
    };
    Ok(Defaults { voice, temperature, seed, cfg_coef, max_tokens_per_chunk })
}

/// A request that overrides nothing runs with the defaults, guidance at 1.0 aside.
pub proof fn unset_options_keep_the_defaults(
    defaults: Defaults,
    opts: SpeechOptions,
    settings: Defaults,
)
    requires
        opts.voice is None,
        opts.temperature is None,
        opts.seed is None,
        opts.cfg_coef is None,
        opts.max_tokens_per_chunk is None,
        settles(defaults, opts, settings),
    ensures
        shown(settings.voice) == shown(defaults.voice),
        settings.temperature.same_as(defaults.temperature),
        settings.seed == defaults.seed,
        same_scalar(settings.cfg_coef, guidance(defaults.cfg_coef)),
        settings.max_tokens_per_chunk == defaults.max_tokens_per_chunk,
{
}

/// Each field overrides on its own: two requests that differ in one field settle alike in all
/// the others.
pub proof fn fields_override_independently(
    defaults: Defaults,
    a: SpeechOptions,
    b: SpeechOptions,
    ra: Defaults,
    rb: Defaults,
)
    requires
        settles(defaults, a, ra),
        settles(defaults, b, rb),
    ensures
        shown(a.voice) == shown(b.voice) ==> shown(ra.voice) == shown(rb.voice),
        a.temperature == b.temperature ==> ra.temperature.same_as(rb.temperature),
        a.seed == b.seed ==> ra.seed == rb.seed,
        a.cfg_coef == b.cfg_coef ==> same_scalar(ra.cfg_coef, rb.cfg_coef),
        a.max_tokens_per_chunk == b.max_tokens_per_chunk ==> ra.max_tokens_per_chunk
            == rb.max_tokens_per_chunk,
{
}

/// Guidance at 1.0, from the request or from the defaults, is no guidance at all.
pub proof fn guidance_at_one_is_no_guidance(
    defaults: Defaults,
    opts: SpeechOptions,
    settings: Defaults,
)
    requires
        settles(defaults, opts, settings),
    ensures
        first_of(opts.cfg_coef, defaults.cfg_coef) matches Some(c) && c.bits == ONE
            ==> settings.cfg_coef is None,
        settings.cfg_coef matches Some(c) ==> c.bits != ONE,
{
}

/// What a request runs with: each of its own settings where it has one, and the default
/// otherwise; guidance only where its coefficient is not 1.0. It is refused if and only if the
/// temperature that it would run with is not a number or below zero.
pub proof fn requests_run_with_what_they_ask_for(
    defaults: Defaults,
    opts: SpeechOptions,
    r: Result<Defaults>,
)
    requires
        call_ensures(resolve, (&defaults, &opts), r),
    ensures
        ({
            let t = match opts.temperature {
                Some(t) => t,
                None => defaults.temperature,
            };
            &&& r is Ok <==> t.bits <= 0x7f80_0000 || t.bits == 0x8000_0000
            &&& r matches Ok(s) ==> s.temperature.bits == t.bits
        }),
        r matches Ok(s) ==> {
            &&& opts.voice matches Some(v) ==> s.voice matches Some(w) && w@ == v@
            &&& opts.voice is None ==> shown(s.voice) == shown(defaults.voice)
            &&& opts.seed matches Some(n) ==> s.seed == n
            &&& opts.seed is None ==> s.seed == defaults.seed
            &&& opts.max_tokens_per_chunk matches Some(n) ==> s.max_tokens_per_chunk == n
            &&& opts.max_tokens_per_chunk is None ==> s.max_tokens_per_chunk
                == defaults.max_tokens_per_chunk
        },
        r matches Ok(s) ==> match (opts.cfg_coef, defaults.cfg_coef) {
            (Some(c), _) => if c.bits == 0x3f80_0000 {
                s.cfg_coef is None
            } else {
                s.cfg_coef matches Some(d) && d.bits == c.bits
            },
            (None, Some(c)) => if c.bits == 0x3f80_0000 {
                s.cfg_coef is None
            } else {
                s.cfg_coef matches Some(d) && d.bits == c.bits
            },
            (None, None) => s.cfg_coef is None,
        },
{
}

} // verus!
