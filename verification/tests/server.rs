use ptts::error::Error;
use ptts::plan::FrameRate;
use ptts::server::error_codes;
use ptts::server::launch::{
    choose_backend, choose_source, default_voice, frame_size, model_file, published_files,
    repo_files, stream_seed, voice_of_file, voices, BackendFlags, HfRepo, Source,
};
use ptts::server::protocol::{
    audio_reply, finished_reply, generation_failed, ErrorMsg, Seconds, Setup, TtsReply, TtsRequest,
};
use ptts::server::session::{Action, Incoming, SessionState};
use ptts::server::setup::{begin, ready_replies, ServerInfo, VoiceWanted};
use ptts::synth::{Backends, DeviceKind, Quant};

fn setup() -> Setup {
    Setup {
        json_config: String::new(),
        model_name: String::new(),
        output_format: "pcm".to_string(),
        voice: None,
        voice_id: None,
        voice_emb: None,
    }
}

fn text(t: &str) -> Incoming {
    Incoming::Request(TtsRequest::Text { text: t.to_string() })
}

fn flush(flush_id: u64) -> Incoming {
    Incoming::Request(TtsRequest::Flush { flush_id })
}

fn error_of(action: Action) -> (u32, String) {
    match action {
        Action::Reply(TtsReply::Error { message, code }) => (code, message),
        other => panic!("{other:?}"),
    }
}

#[test]
fn a_session_starts_with_setup() {
    let mut s = SessionState::new();
    for early in [text("x"), flush(1), Incoming::Request(TtsRequest::EndOfStream)] {
        assert_eq!(
            error_of(s.on_message(early)),
            (error_codes::BAD_REQUEST, "expected setup as first message".to_string())
        );
    }
    let wanted = Incoming::Request(TtsRequest::Setup(setup()));
    assert!(matches!(s.on_message(wanted), Action::SetUp(w) if w.output_format == "pcm"));
    // Setting up may fail, so the session is only ready once it is told.
    assert!(matches!(
        s.on_message(Incoming::Request(TtsRequest::Setup(setup()))),
        Action::SetUp(_)
    ));
    s.set_ready();
    assert_eq!(
        error_of(s.on_message(Incoming::Request(TtsRequest::Setup(setup())))),
        (error_codes::BAD_REQUEST, "session already initialized".to_string())
    );
}

#[test]
fn text_is_spoken_once_and_in_order() {
    let mut s = SessionState::new();
    s.set_ready();
    let mut spoken = String::new();
    let mut ids = Vec::new();
    let mut speak = |action: Action| match action {
        Action::Speak { job, reply, close } => {
            if let Some(job) = job {
                spoken.push_str(&job.text);
                ids.push(job.stream_id);
            }
            (format!("{reply:?}"), close)
        }
        other => panic!("{other:?}"),
    };
    assert!(matches!(s.on_message(text("Hello ")), Action::Wait));
    assert!(matches!(s.on_message(Incoming::Other), Action::Wait));
    assert!(matches!(s.on_message(text("world. ")), Action::Wait));
    let bad = s.on_message(Incoming::Invalid("eof".to_string()));
    assert_eq!(
        error_of(bad),
        (error_codes::BAD_REQUEST, "invalid request: eof".to_string())
    );
    assert_eq!(speak(s.on_message(flush(7))), ("Flushed { flush_id: 7 }".to_string(), false));
    // Nothing is waiting: the flush is answered, and no id is used up.
    assert_eq!(speak(s.on_message(flush(8))), ("Flushed { flush_id: 8 }".to_string(), false));
    s.on_message(text("Bye."));
    let end = Incoming::Request(TtsRequest::EndOfStream);
    assert_eq!(speak(s.on_message(end)), ("EndOfStream".to_string(), true));
    assert_eq!(spoken, "Hello world. Bye.");
    assert_eq!(ids, [0, 1]);
    assert!(matches!(s.on_message(Incoming::Closed), Action::Close));
}

fn info() -> ServerInfo {
    ServerInfo {
        voices: vec!["alba".to_string(), "marius".to_string()],
        default_voice: "alba".to_string(),
        sample_rate: 24000,
        frame_size: 1920,
    }
}

fn refused<T: std::fmt::Debug>(r: Result<T, TtsReply>) -> (u32, String) {
    match r {
        Err(TtsReply::Error { message, code }) => (code, message),
        other => panic!("{other:?}"),
    }
}

fn voice_for(s: Setup) -> Result<VoiceWanted, TtsReply> {
    begin(s).unwrap().parsed(Ok(())).unwrap().made(Ok(None), &info())
}

#[test]
fn a_setup_is_refused_with_what_is_wrong() {
    let s = Setup { voice_emb: Some("AAAA".to_string()), ..setup() };
    assert_eq!(
        refused(begin(s)),
        (error_codes::NOT_IMPLEMENTED, "voice_emb prompts are not yet supported".to_string())
    );
    let s = Setup { voice_emb: Some(String::new()), ..setup() };
    let next = begin(s).unwrap();
    assert_eq!(next.format(), "pcm");
    assert_eq!(
        refused(next.parsed(Err("no such format".to_string()))),
        (error_codes::BAD_REQUEST, "no such format".to_string())
    );
    let next = begin(setup()).unwrap().parsed(Ok(())).unwrap();
    assert_eq!(
        refused(next.made(Err("no opus".to_string()), &info())),
        (error_codes::INTERNAL, "failed to create audio encoder: no opus".to_string())
    );
    let s = Setup { voice: Some("nobody".to_string()), ..setup() };
    assert_eq!(
        refused(voice_for(s)),
        (error_codes::NOT_FOUND, "unknown voice 'nobody'".to_string())
    );
    let next = voice_for(setup()).unwrap();
    assert_eq!(
        refused(next.primed(Err("too long".to_string()), &info())),
        (error_codes::INTERNAL, "failed to prime voice: too long".to_string())
    );
}

#[test]
fn an_id_is_preferred_to_a_name() {
    let some = |s: &str| Some(s.to_string());
    let pick = |voice_id, voice| voice_for(Setup { voice_id, voice, ..setup() }).unwrap().voice;
    assert_eq!(pick(some("marius"), some("alba")), "marius");
    assert_eq!(pick(some(""), some("marius")), "marius");
    assert_eq!(pick(some(""), some("")), "alba");
    assert_eq!(pick(None, None), "alba");
    assert_eq!(pick(some("default"), some("marius")), "alba");
}

#[test]
fn a_ready_session_is_told_so() {
    let wanted = |header, model_name: &str| VoiceWanted {
        voice: "alba".to_string(),
        model_name: model_name.to_string(),
        header,
    };
    let replies = ready_replies(wanted(None, "mine"), &info(), "id".to_string());
    assert_eq!(replies.len(), 1);
    match &replies[0] {
        TtsReply::Ready {
            model_name,
            sample_rate: 24000,
            frame_size: 1920,
            audio_stream_names,
            text_stream_names,
            request_id,
        } => {
            assert_eq!((model_name.as_str(), request_id.as_str()), ("mine", "id"));
            assert!(audio_stream_names.is_empty() && text_stream_names.is_empty());
        }
        other => panic!("{other:?}"),
    }
    let replies =
        wanted(Some(b"RIFF".to_vec()), "").primed(Ok(()), &info()).unwrap();
    match &replies[..] {
        [TtsReply::Ready { model_name, request_id, .. }, TtsReply::Audio { audio, start_s, stop_s, stream_id: 0 }] =>
        {
            assert_eq!(model_name, "kyutai/pocket-tts");
            assert_eq!(request_id.len(), 36);
            for (i, c) in request_id.chars().enumerate() {
                if [8, 13, 18, 23].contains(&i) {
                    assert_eq!(c, '-');
                } else {
                    assert!(matches!(c, '0'..='9' | 'a'..='f'), "{request_id}");
                }
            }
            assert_eq!(request_id.chars().nth(14), Some('4'));
            assert_eq!(audio, "UklGRg==");
            assert_eq!((f64::from_bits(start_s.bits), f64::from_bits(stop_s.bits)), (0.0, 0.0));
        }
        other => panic!("{other:?}"),
    }
    let again = wanted(None, "").primed(Ok(()), &info()).unwrap();
    assert_ne!(format!("{:?}", again[0]), format!("{:?}", replies[0]));
}

#[test]
fn audio_is_sent_in_base64() {
    let at = |s: f64| Seconds { bits: s.to_bits() };
    for (data, expected) in [
        (&b""[..], ""),
        (b"f", "Zg=="),
        (b"fo", "Zm8="),
        (b"foo", "Zm9v"),
        (b"foob", "Zm9vYg=="),
        (b"\xff\xef\xbe\xfb", "/++++w=="),
    ] {
        match audio_reply(data, at(0.5), at(1.5), 3) {
            TtsReply::Audio { audio, start_s, stop_s, stream_id } => {
                assert_eq!(audio, expected);
                assert_eq!((start_s, stop_s, stream_id), (at(0.5), at(1.5), 3));
            }
            other => panic!("{other:?}"),
        }
    }
    assert!(
        matches!(generation_failed("why"), TtsReply::Error { message, code: 500 } if message == "generation failed: why")
    );
    let ErrorMsg::Error { message } = ErrorMsg::Error { message: "m".to_string() };
    assert_eq!(message, "m");
}

const NONE: Backends = Backends { cuda: false, vulkan: false, metal: false };
const PLAIN: BackendFlags = BackendFlags { cuda: false, vulkan: false, metal: false };

#[test]
fn the_command_line_picks_a_backend() {
    assert_eq!(choose_backend(PLAIN, None, NONE).unwrap(), (DeviceKind::Cpu, Quant::F32));
    assert_eq!(choose_backend(PLAIN, Some("q8"), NONE).unwrap(), (DeviceKind::Cpu, Quant::Q80));
    let cuda = BackendFlags { cuda: true, ..PLAIN };
    let built = Backends { cuda: true, ..NONE };
    assert_eq!(choose_backend(cuda, None, built).unwrap(), (DeviceKind::Cuda, Quant::F32));
    let message = |r: Result<_, Error>| r.unwrap_err().message();
    assert_eq!(
        message(choose_backend(cuda, None, NONE)),
        "--cuda requested but binary was not built with --features cuda"
    );
    assert_eq!(
        message(choose_backend(cuda, Some("q4k"), NONE)),
        "quantization (q4k) is CPU-only, but the selected device is Cuda"
    );
    assert_eq!(
        message(choose_backend(BackendFlags { metal: true, ..cuda }, Some("zz"), NONE)),
        "at most one of --cuda, --vulkan, and --metal can be used"
    );
    assert!(message(choose_backend(cuda, Some("zz"), NONE)).contains("'zz'"));
    let vulkan = BackendFlags { vulkan: true, ..PLAIN };
    assert_eq!(
        message(choose_backend(vulkan, None, built)),
        "--vulkan requested but binary was not built with --features vulkan"
    );
}

#[test]
fn checkpoints_are_found_by_what_names_them() {
    assert!(matches!(choose_source(None, false, false), Source::Published));
    assert!(matches!(choose_source(Some("a/b"), false, false), Source::Repo(id) if id == "a/b"));
    assert!(matches!(choose_source(Some("c"), true, false), Source::Config(p) if p == "c"));
    assert!(matches!(choose_source(Some("c.json"), false, true), Source::Config(_)));
    assert_eq!(model_file(true, true, "d").unwrap(), "model.safetensors");
    assert_eq!(model_file(false, true, "d").unwrap(), "model.q8.gguf");
    assert_eq!(
        model_file(false, false, "\"d\"").unwrap_err().message(),
        "model file not found in directory \"d\"; expected model.safetensors or model.gguf"
    );
    assert_eq!(voice_of_file(Some("safetensors"), Some("alba")).as_deref(), Some("alba"));
    assert_eq!(voice_of_file(Some("wav"), Some("alba")), None);
    assert_eq!(voice_of_file(None, Some("alba")), None);
    let repo = repo_files();
    assert_eq!(repo.config, Some("config.json"));
    assert_eq!(repo.voices[0].file, "default-voice.safetensors");
    let published = published_files();
    assert_eq!(published.weights, "tts_b6369a24.safetensors");
    assert_eq!(published.voices.len(), voices().len());
    assert_eq!(published.voices[7].file, "embeddings/azelma.safetensors");
    assert!(published.voices_optional);
    assert_eq!(default_voice(&voices()).unwrap(), "alba");
    assert_eq!(
        default_voice(&vec![]).unwrap_err().message(),
        "no voice embeddings found in model"
    );
}

#[test]
fn repositories_are_split_at_the_first_slash() {
    let parts = |id: &str| {
        let r = HfRepo::model(id);
        (r.owner, r.name)
    };
    assert_eq!(parts("kyutai/pocket-tts"), ("kyutai".to_string(), "pocket-tts".to_string()));
    assert_eq!(parts("gpt2"), (String::new(), "gpt2".to_string()));
    assert_eq!(parts("a/b/c"), ("a".to_string(), "b/c".to_string()));
    assert_eq!(parts("/x"), (String::new(), "x".to_string()));
    assert_eq!(
        HfRepo::model("a/b").fetch_context("config.json"),
        "failed to fetch `config.json` from model repo `a/b`"
    );
}

#[test]
fn frames_are_rounded_to_samples() {
    let rate = |num, den| FrameRate { num, den };
    assert_eq!(frame_size(24000, rate(25, 2)), 1920);
    assert_eq!(frame_size(24000, rate(7, 1)), (24000f64 / 7.0).round() as u32);
    assert_eq!(frame_size(5, rate(2, 1)), 3);
}

#[test]
fn streams_have_seeds_of_their_own() {
    let base = 4242424242424242;
    assert_eq!(stream_seed(base, 0), base);
    let mut seeds: Vec<u64> = (0..1000).map(|i| stream_seed(base, i)).collect();
    for i in [1u32, 2, 77, u32::MAX] {
        assert_eq!(
            stream_seed(base, i),
            base ^ (i as u64).wrapping_mul(0x9E3779B97F4A7C15)
        );
    }
    seeds.sort();
    seeds.dedup();
    assert_eq!(seeds.len(), 1000);
}

#[test]
fn a_finished_stream_is_followed_by_its_timings() {
    let stats = finished_reply(Ok("{\"rtf\":2.5}".to_string()));
    assert!(matches!(stats, TtsReply::Stats { json_stats } if json_stats == "{\"rtf\":2.5}"));
    match finished_reply(Err("out of memory".to_string())) {
        TtsReply::Error { message, code } => {
            assert_eq!((message.as_str(), code), ("generation failed: out of memory", 500));
        }
        other => panic!("{other:?}"),
    }
}
