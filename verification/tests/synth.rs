use ptts::error::{Error, TensorError};
use ptts::plan::FrameRate;
use ptts::preprocess::{Lang, Normalize};
use ptts::synth::builder::{encoder_probe, VoiceFile, MAX_TOKENS_PER_CHUNK};
use ptts::synth::session::{
    is_plannable, most_slots, one_shot_budget, plan_chunk, plan_chunks, primed_len, require_tokenizer,
    LayerPosition, Prepared,
};
use ptts::synth::{
    check_embedding, null_prefix, resolve, Backends, ChunkPlan, Defaults, DeviceKind, NullBranch,
    NullEmb, Primed, PromptBounds, Quant, Scalar, SessionOf, SpeechOptions, Start, SynthBuilder,
    SynthOf, TokenizerSource, Voice, MAX_PRIMED,
};

fn scalar(v: f32) -> Scalar {
    Scalar { bits: v.to_bits(), shown: format!("{v}") }
}

fn defaults() -> Defaults {
    Defaults {
        voice: Some("alba".into()),
        temperature: scalar(0.5),
        seed: 42,
        cfg_coef: None,
        max_tokens_per_chunk: 50,
    }
}

fn value(s: &Scalar) -> f32 {
    f32::from_bits(s.bits)
}

#[test]
fn a_nonsensical_temperature_is_rejected_as_an_argument() {
    for bad in [-0.5f32, f32::NAN] {
        let opts = SpeechOptions::default().temperature(scalar(bad));
        let err = resolve(&defaults(), &opts).unwrap_err();
        assert!(matches!(err, Error::InvalidArgument(_)), "{bad}: {err:?}");
    }
    // Zero is greedy sampling, not an error.
    let opts = SpeechOptions::default().temperature(scalar(0.0));
    assert_eq!(value(&resolve(&defaults(), &opts).unwrap().temperature), 0.0);
}

#[test]
fn every_temperature_is_judged_like_floating_point() {
    for t in [
        0.0f32,
        -0.0,
        0.3,
        f32::MAX,
        f32::INFINITY,
        f32::MIN_POSITIVE,
        -f32::MIN_POSITIVE,
        f32::NEG_INFINITY,
        -1.0,
        f32::NAN,
        -f32::NAN,
    ] {
        let opts = SpeechOptions::default().temperature(scalar(t));
        let refused = t.is_nan() || t < 0.0;
        match resolve(&defaults(), &opts) {
            Ok(_) => assert!(!refused, "{t}"),
            Err(e) => {
                assert!(refused, "{t}");
                assert_eq!(e.message(), format!("temperature must be >= 0, got {t}"));
            }
        }
    }
    // The default is checked as well.
    let bad = Defaults { temperature: scalar(-2.0), ..defaults() };
    assert!(resolve(&bad, &SpeechOptions::default()).is_err());
}

#[test]
fn unset_options_leave_the_defaults_alone() {
    let d = defaults();
    let got = resolve(&d, &SpeechOptions::default()).unwrap();
    assert_eq!(got.voice, d.voice);
    assert_eq!(value(&got.temperature), value(&d.temperature));
    assert_eq!(got.seed, d.seed);
    assert_eq!(got.max_tokens_per_chunk, d.max_tokens_per_chunk);
}

#[test]
fn each_field_overrides_independently() {
    let all = SpeechOptions::default()
        .voice("marius")
        .temperature(scalar(0.9))
        .seed(7)
        .max_tokens_per_chunk(80);
    let got = resolve(&defaults(), &all).unwrap();
    assert_eq!(got.voice.as_deref(), Some("marius"));
    assert_eq!(value(&got.temperature), 0.9);
    assert_eq!(got.seed, 7);
    assert_eq!(got.max_tokens_per_chunk, 80);

    let one = resolve(&defaults(), &SpeechOptions::default().seed(99)).unwrap();
    assert_eq!(one.seed, 99);
    assert_eq!(value(&one.temperature), 0.5);
    assert_eq!(one.voice.as_deref(), Some("alba"));
}

#[test]
fn guidance_at_one_is_normalized_away() {
    let coef = |d: &Defaults, o: &SpeechOptions| {
        resolve(d, o).unwrap().cfg_coef.as_ref().map(value)
    };
    let from_request = SpeechOptions::default().cfg_coef(scalar(1.0));
    assert_eq!(coef(&defaults(), &from_request), None);
    assert_eq!(coef(&defaults(), &SpeechOptions::default().cfg_coef(scalar(2.0))), Some(2.0));
    // From the builder, and when a request turns the builder's off.
    let enabled = Defaults { cfg_coef: Some(scalar(3.0)), ..defaults() };
    assert_eq!(
        coef(
            &Defaults { cfg_coef: Some(scalar(1.0)), ..defaults() },
            &SpeechOptions::default()
        ),
        None
    );
    assert_eq!(coef(&enabled, &from_request), None);
    assert_eq!(coef(&enabled, &SpeechOptions::default()), Some(3.0));
}

#[test]
fn the_builder_keeps_the_policy_it_was_given() {
    for norm in [Normalize::For(Lang::En), Normalize::For(Lang::De), Normalize::Off] {
        let b = SynthBuilder::<(), ()>::new((), "model.safetensors", norm);
        assert_eq!(b.normalize, norm);
    }
}

#[test]
fn the_builder_starts_from_its_defaults() {
    let b = SynthBuilder::<u8, ()>::new(9, "w", Normalize::Off);
    assert_eq!((b.config, b.weights.as_str()), (9, "w"));
    assert_eq!((b.device, b.quant), (DeviceKind::Auto, Quant::F32));
    assert_eq!(value(&b.temperature), 0.3);
    assert_eq!(b.temperature.shown, "0.3");
    assert_eq!(b.seed, 4242424242424242);
    assert_eq!(b.max_tokens_per_chunk, MAX_TOKENS_PER_CHUNK);
    let b = b
        .device(DeviceKind::Cpu)
        .quant(Quant::Q4k)
        .temperature(scalar(0.7))
        .seed(1)
        .cfg_coef(scalar(1.5))
        .eos_threshold(scalar(-4.0))
        .voice("alba")
        .max_tokens_per_chunk(20)
        .tokenizer_file("tok")
        .add_voice("a", "a.safetensors")
        .add_voice("b", "b.safetensors");
    assert_eq!(b.eos_threshold.as_ref().map(value), Some(-4.0));
    let files: Vec<(&str, &str)> =
        b.voices.iter().map(|v: &VoiceFile| (v.name.as_str(), v.path.as_str())).collect();
    assert_eq!(files, [("a", "a.safetensors"), ("b", "b.safetensors")]);
    let d = b.defaults();
    assert_eq!(d.voice.as_deref(), Some("alba"));
    assert_eq!((value(&d.temperature), d.seed, d.max_tokens_per_chunk), (0.7, 1, 20));
    assert_eq!(d.cfg_coef.as_ref().map(value), Some(1.5));
}

const NONE: Backends = Backends { cuda: false, vulkan: false, metal: false };
const ALL: Backends = Backends { cuda: true, vulkan: true, metal: true };

#[test]
fn devices_are_resolved_against_the_build() {
    assert_eq!(DeviceKind::Auto.resolve(NONE), DeviceKind::Cpu);
    assert_eq!(DeviceKind::Auto.resolve(ALL), DeviceKind::Cuda);
    assert_eq!(
        DeviceKind::Auto.resolve(Backends { cuda: false, ..ALL }),
        DeviceKind::Vulkan
    );
    assert_eq!(
        DeviceKind::Auto.resolve(Backends { metal: true, ..NONE }),
        DeviceKind::Metal
    );
    assert_eq!(DeviceKind::Metal.resolve(NONE), DeviceKind::Metal);
    for (name, kind) in [
        ("auto", DeviceKind::Auto),
        ("cpu", DeviceKind::Cpu),
        ("cuda", DeviceKind::Cuda),
        ("vulkan", DeviceKind::Vulkan),
        ("metal", DeviceKind::Metal),
    ] {
        assert_eq!(DeviceKind::parse(name).unwrap(), kind);
    }
    assert_eq!(
        DeviceKind::parse("CPU").unwrap_err().message(),
        "unknown device 'CPU'; expected auto, cpu, cuda, vulkan or metal"
    );
    assert_eq!(DeviceKind::default(), DeviceKind::Auto);
    assert_eq!(Quant::default(), Quant::F32);
}

#[test]
fn quantization_is_for_the_cpu() {
    let all = [
        Quant::F32,
        Quant::Q80,
        Quant::Q81,
        Quant::Q8k,
        Quant::Q6k,
        Quant::Q50,
        Quant::Q51,
        Quant::Q5k,
        Quant::Q40,
        Quant::Q41,
        Quant::Q4k,
    ];
    for q in all {
        assert_eq!(Quant::parse(q.as_str()).unwrap(), q);
        q.check_device(DeviceKind::Cpu, ALL).unwrap();
        q.check_device(DeviceKind::Auto, NONE).unwrap();
        assert_eq!(q.check_device(DeviceKind::Auto, ALL).is_ok(), q == Quant::F32);
    }
    for (name, q) in [
        ("none", Quant::F32),
        ("q8", Quant::Q80),
        ("q5", Quant::Q50),
        ("q4", Quant::Q40),
    ] {
        assert_eq!(Quant::parse(name).unwrap(), q);
    }
    assert_eq!(
        Quant::parse("q3").unwrap_err().message(),
        "unsupported quantization 'q3'; expected one of f32, q8_0, q8_1, q8k, q6k, q5_0, q5_1, \
         q5k, q4_0, q4_1, q4k"
    );
    assert_eq!(
        Quant::Q8k.check_device(DeviceKind::Metal, NONE).unwrap_err().message(),
        "quantization (q8k) is CPU-only, but the selected device is Metal"
    );
}

#[test]
fn building_needs_a_backend_that_is_there() {
    let b = SynthBuilder::<(), ()>::new((), "w", Normalize::Off);
    assert_eq!(b.build(NONE).unwrap(), DeviceKind::Cpu);
    assert_eq!(b.build(ALL).unwrap(), DeviceKind::Cuda);
    for (kind, message) in [
        (
            DeviceKind::Cuda,
            "this build has no CUDA support; rebuild with the `cuda` feature",
        ),
        (
            DeviceKind::Vulkan,
            "this build has no Vulkan support; rebuild with the `vulkan` feature",
        ),
        (
            DeviceKind::Metal,
            "this build has no Metal support; rebuild with the `metal` feature",
        ),
    ] {
        let b = SynthBuilder::<(), ()>::new((), "w", Normalize::Off).device(kind);
        let e = b.build(NONE).unwrap_err();
        assert!(matches!(e, Error::Unsupported(_)));
        assert_eq!(e.message(), message);
    }
    let b = b.quant(Quant::Q80);
    assert!(b.build(NONE).is_ok());
    assert!(b.build(ALL).is_err());
    b.check_weights(true).unwrap();
    assert_eq!(b.check_weights(false).unwrap_err().message(), "weights file not found: w");
    assert_eq!(encoder_probe("mimi"), "mimi.encoder.model.0.conv.weight");
}

#[test]
fn a_supplied_tokenizer_wins() {
    let fresh = || SynthBuilder::<(), u8>::new((), "w", Normalize::Off);
    let mut b = fresh().tokenizer(5).tokenizer_file("tok");
    assert!(matches!(b.take_tokenizer(false), Ok(TokenizerSource::Supplied(5))));
    assert!(matches!(b.take_tokenizer(true), Ok(TokenizerSource::File(p)) if p == "tok"));
    assert_eq!(
        b.take_tokenizer(false).err().unwrap().message(),
        "cannot read the tokenizer at tok: `ptts` was built without the `hf` feature."
    );
    assert_eq!(
        fresh().take_tokenizer(true).err().unwrap().message(),
        "no tokenizer available: no `tokenizer.json` was found beside the checkpoint, and none \
         was passed to SynthBuilder::tokenizer or SynthBuilder::tokenizer_file."
    );
}

type Synth = SynthOf<u32, u32>;

fn synth(voice: Option<&str>, null_audio_empty: bool) -> Synth {
    let d = Defaults { voice: voice.map(|v| v.to_string()), ..defaults() };
    SynthOf::new(d, Normalize::For(Lang::En), null_audio_empty, true)
}

fn voice(emb: u32, frames: usize) -> Voice<u32> {
    Voice { emb, frames, null_emb: None }
}

fn primed(state: u32) -> Primed<u32> {
    Primed { state, null_state: None }
}

#[test]
fn voices_are_listed_in_order() {
    let mut s = synth(None, true);
    for name in ["marius", "alba", "Zoe", "alba2", "ä", "alba"] {
        s.add_voice(name, voice(1, 10));
    }
    assert_eq!(s.voices(), ["Zoe", "alba", "alba2", "marius", "ä"]);
    assert_eq!(s.normalization(), Normalize::For(Lang::En));
    assert!(s.supports_voice_cloning());
    assert!(!s.wants_silence());
}

#[test]
fn the_first_voice_is_the_default() {
    let mut s = synth(None, true);
    s.settle_voice().unwrap();
    assert_eq!(s.defaults().voice, None);
    s.add_voice("b", voice(1, 10));
    s.add_voice("a", voice(2, 10));
    s.settle_voice().unwrap();
    assert_eq!(s.defaults().voice.as_deref(), Some("a"));

    let mut s = synth(Some("nobody"), true);
    s.add_voice("a", voice(2, 10));
    match s.settle_voice().unwrap_err() {
        Error::UnknownVoice { name, known } => {
            assert_eq!(name, "nobody");
            assert_eq!(known, ["a"]);
        }
        e => panic!("{e:?}"),
    }
}

#[test]
fn a_generation_starts_from_what_is_kept() {
    let mut s = synth(None, true);
    assert!(matches!(s.primed_state(None, 10, false), Ok(Start::Bare)));
    match s.primed_state(Some("x"), 10, false) {
        Err(Error::UnknownVoice { name, known }) => {
            assert_eq!((name.as_str(), known.len()), ("x", 0));
        }
        _ => panic!("an unknown voice"),
    }
    s.add_voice("b", voice(7, 20));
    s.add_voice("a", voice(8, 20));
    match s.primed_state(None, 100, false) {
        Err(e) => assert_eq!(e.message(), "no voice selected; this model has a, b"),
        Ok(_) => panic!("no voice"),
    }
    for budget in [0, 19, 20] {
        match s.primed_state(Some("b"), budget, false) {
            Err(Error::VoicePromptTooLong { frames: 20, budget: b }) => assert_eq!(b, budget),
            _ => panic!("too long"),
        }
    }
    assert!(matches!(s.primed_state(Some("b"), 21, false), Ok(Start::Prime(v)) if v.emb == 7));
    s.keep_primed("b", false, primed(70));
    assert!(matches!(s.primed_state(Some("b"), 21, false), Ok(Start::Kept(p)) if p.state == 70));
    // Guidance has a prefix of its own.
    assert!(matches!(s.primed_state(Some("b"), 21, true), Ok(Start::Prime(_))));
    s.keep_primed("a", true, primed(80));
    // A voice that is registered again is conditioned on again; the others are not.
    s.add_voice("b", voice(9, 20));
    assert!(matches!(s.primed_state(Some("b"), 21, false), Ok(Start::Prime(v)) if v.emb == 9));
    assert!(matches!(s.primed_state(Some("a"), 21, true), Ok(Start::Kept(p)) if p.state == 80));
}

#[test]
fn the_kept_prefixes_are_capped() {
    let mut s = synth(None, true);
    s.add_voice("v", voice(1, 1));
    for i in 0..MAX_PRIMED as u32 {
        s.keep_primed(&format!("v{i}"), false, primed(i));
    }
    s.add_voice("v0", voice(2, 1));
    s.keep_primed("v0", false, primed(0));
    s.add_voice("v3", voice(2, 1));
    s.keep_primed("v3", false, primed(3));
    assert!(matches!(s.primed_state(Some("v0"), 5, false), Ok(Start::Kept(_))));
    // The cap is reached again: one more clears the rest.
    s.keep_primed("v", false, primed(99));
    assert!(matches!(s.primed_state(Some("v0"), 5, false), Ok(Start::Prime(_))));
    assert!(matches!(s.primed_state(Some("v"), 5, false), Ok(Start::Kept(p)) if p.state == 99));
}

#[test]
fn the_null_branch_follows_the_model() {
    let silent = |frames| Voice { emb: 1, frames: 5, null_emb: Some(NullEmb { emb: 2, frames }) };
    let empty = synth(None, true);
    let silence = synth(None, false);
    assert!(silence.wants_silence());
    assert_eq!(empty.null_branch(&voice(1, 5), false).unwrap(), NullBranch::Off);
    assert_eq!(empty.null_branch(&silent(9), true).unwrap(), NullBranch::Empty { frames: 5 });
    assert_eq!(silence.null_branch(&silent(9), true).unwrap(), NullBranch::Silence { frames: 9 });
    assert_eq!(silence.null_branch(&voice(1, 5), false).unwrap(), NullBranch::Off);
    let e = silence.null_branch(&voice(1, 5), true).unwrap_err();
    assert!(matches!(e, Error::Unsupported(_)));
    assert!(e.message().starts_with("this model conditions its CFG null branch on silence"));

    let both = Primed { state: 1, null_state: Some(2) };
    assert_eq!(null_prefix(&both, true).unwrap(), Some(&2));
    assert_eq!(null_prefix(&both, false).unwrap(), None);
    match null_prefix(&primed(1), true) {
        Err(Error::Tensor(TensorError { text, .. })) => {
            assert_eq!(
                text,
                "internal: a primed entry keyed with guidance has no null branch"
            );
        }
        _ => panic!("no null branch"),
    }
}

#[test]
fn embeddings_have_to_fill_their_shape() {
    check_embedding(6, 3, 2, None).unwrap();
    check_embedding(6, 3, 2, Some(6)).unwrap();
    assert_eq!(
        check_embedding(5, 3, 2, Some(1)).unwrap_err().message(),
        "embedding has 5 values, expected 3 x 2"
    );
    assert_eq!(
        check_embedding(6, 3, 2, Some(1)).unwrap_err().message(),
        "null embedding has 1 values, expected 3 x 2"
    );
}

#[test]
fn audio_prompts_are_trimmed_and_checked() {
    let bounds = PromptBounds {
        sample_rate: 24000,
        min_len: 72000,
        max_len: 240000,
        min_seconds: "3.00".to_string(),
    };
    let s = synth(None, true);
    assert_eq!(s.prompt_len(72000, "3.00", &bounds).unwrap(), 72000);
    assert_eq!(s.prompt_len(500000, "20.83", &bounds).unwrap(), 240000);
    assert_eq!(
        s.prompt_len(24000, "1.00", &bounds).unwrap_err().message(),
        "voice prompt is too short: got 24000 samples (1.00s at 24000Hz), need at least 72000 \
         (3.00s)"
    );
    let mute: Synth = SynthOf::new(defaults(), Normalize::Off, true, false);
    assert_eq!(
        mute.prompt_len(1, "0.00", &bounds).unwrap_err().message(),
        "this checkpoint has no speaker encoder, so it cannot clone voices"
    );
}

const CODEC: FrameRate = FrameRate { num: 25, den: 2 };

fn prepared(n: usize) -> Prepared {
    Prepared { tokens: vec![1; n], frames_after_eos: 1 }
}

fn chunk(n: usize) -> ChunkPlan {
    plan_chunk(prepared(n), CODEC)
}

fn session(seq_budget: usize, prompt_len: usize) -> SessionOf {
    let mut synth: Synth = SynthOf::new(defaults(), Normalize::Off, true, true);
    synth.session_at(defaults(), CODEC, seq_budget, prompt_len)
}

#[test]
fn chunks_are_planned_one_by_one() {
    let chunks = plan_chunks(vec![prepared(50), prepared(0)], CODEC).unwrap();
    assert_eq!((chunks[0].frame_budget, chunks[0].seq_budget), (234, 796));
    assert_eq!((chunks[1].frame_budget, chunks[1].seq_budget), (25, 537));
    assert_eq!(one_shot_budget(&chunks), 796);
    assert_eq!(one_shot_budget(&vec![]), 0);
    assert_eq!(
        plan_chunks(vec![], CODEC).unwrap_err().message(),
        "nothing to synthesize: the text is empty"
    );
    assert!(is_plannable(50, CODEC));
    assert!(!is_plannable(usize::MAX, CODEC));
    require_tokenizer(true).unwrap();
    assert!(matches!(require_tokenizer(false), Err(Error::Unsupported(_))));
}

#[test]
fn the_prompt_is_as_long_as_the_first_flow_layer_says() {
    let at = |n| LayerPosition::FlowLm { current_end: n };
    assert_eq!(primed_len(&vec![]), 0);
    assert_eq!(primed_len(&vec![LayerPosition::Codec]), 0);
    assert_eq!(primed_len(&vec![LayerPosition::Codec, at(125), at(3)]), 125);
}

#[test]
fn the_in_flight_guard_clears_on_drop() {
    let mut session = session(1024, 125);
    let chunks = vec![chunk(10)];
    let guard = session.stream_chunks(&chunks);
    assert!(guard.is_ok(), "an idle session must be claimable");
    assert!(
        matches!(session.stream_chunks(&chunks), Err(Error::Busy(_))),
        "a claimed session must refuse a second generation"
    );

    assert!(session.release(guard.unwrap()).is_none());
    assert!(
        session.stream_chunks(&chunks).is_ok(),
        "the guard must release the session, and the next generation must be able to claim it"
    );
}

#[test]
fn a_session_rebuilt_with_what_is_needed_fits() {
    let chunks = vec![chunk(10), chunk(50), chunk(20)];
    let mut small = session(300, 125);
    let needed = match small.stream_chunks(&chunks) {
        Err(Error::SeqBudgetExceeded { needed, budget }) => {
            assert_eq!(budget, 300);
            needed
        }
        _ => panic!("the chunks do not fit"),
    };
    assert_eq!(needed, 125 + 50 + 234);
    // A refused request does not hold the session.
    assert!(small.stream_chunks(&vec![chunk(0)]).is_ok());
    // The budget is judged first, whether or not a generation is running.
    assert!(matches!(small.stream_chunks(&chunks), Err(Error::SeqBudgetExceeded { .. })));
    assert!(session(needed, 125).stream_chunks(&chunks).is_ok());
    assert!(session(needed - 1, 125).stream_chunks(&chunks).is_err());
    // A one-shot session has room for a prompt within the headroom.
    assert!(session(one_shot_budget(&chunks), 512).stream_chunks(&chunks).is_ok());
    assert!(session(one_shot_budget(&chunks), 513).stream_chunks(&chunks).is_err());
    assert!(chunks[0].slots_fit(125));
    assert!(!chunks[0].slots_fit(usize::MAX));
}

#[test]
fn a_session_remembers_its_settings() {
    let s = session(1024, 125);
    assert_eq!((s.seq_budget(), s.prompt_len(), s.seed()), (1024, 125, 42));
    assert_eq!(s.normalization(), Normalize::Off);
    assert_eq!(value(s.temperature()), 0.5);
    assert_eq!(s.max_tokens_per_chunk(), 50);
    assert_eq!(s.frame_rate(), CODEC);
    let c = s.plan_tokens(vec![1, 2, 3], 3).unwrap();
    assert_eq!((c.frame_budget, c.frames_after_eos, c.seq_budget), (38, 3, 553));
    assert_eq!(
        s.plan_tokens(vec![], 3).unwrap_err().message(),
        "nothing to synthesize: no tokens"
    );
}

#[test]
fn a_right_frees_its_own_session_only() {
    let mut synth = synth(None, true);
    let mut one = synth.session_at(defaults(), CODEC, 1024, 0);
    let mut other = synth.session_at(defaults(), CODEC, 1024, 0);
    assert_eq!(synth.sessions(), 2);
    let chunks = vec![chunk(10)];
    let right = one.stream_chunks(&chunks).unwrap();
    let others = other.stream_chunks(&chunks).unwrap();
    // A foreign right is handed back and frees nothing.
    let others = one.release(others).unwrap();
    assert!(matches!(one.stream_chunks(&chunks), Err(Error::Busy(_))));
    assert!(one.release(right).is_none());
    assert!(one.stream_chunks(&chunks).is_ok());
    assert!(matches!(other.stream_chunks(&chunks), Err(Error::Busy(_))));
    assert!(other.release(others).is_none());
    assert!(other.stream_chunks(&chunks).is_ok());
}

#[test]
fn the_most_demanding_chunk_decides() {
    let chunks = vec![chunk(10), chunk(50), chunk(0)];
    assert_eq!(most_slots(125, &chunks), 125 + 50 + 234);
    assert_eq!(most_slots(125, &vec![]), 0);
}
