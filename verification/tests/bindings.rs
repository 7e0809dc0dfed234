use ptts::bindings::{
    available_devices, available_quants, call_options, check_voice, choose_by_name,
    embedding_dims, exception_of, fetch_exception, is_local_config, local_model_file, repr,
    resolve as locate, Artifacts, Exception, HubFault,
};
use ptts::error::{Cause, Error, TensorError};
use ptts::server::launch::HfRepo;
use ptts::synth::{Backends, DeviceKind, Quant};

const NONE: Backends = Backends { cuda: false, vulkan: false, metal: false };
const SOME: Backends = Backends { cuda: false, vulkan: true, metal: true };

#[test]
fn names_are_offered_most_capable_first() {
    assert_eq!(available_devices(NONE), ["cpu"]);
    assert_eq!(available_devices(SOME), ["vulkan", "metal", "cpu"]);
    for built in [NONE, SOME] {
        let first = DeviceKind::parse(&available_devices(built)[0]).unwrap();
        assert_eq!(DeviceKind::Auto.resolve(built), first);
    }
    assert_eq!(available_quants().len(), 11);
    for name in available_quants() {
        assert_eq!(Quant::parse(name).unwrap().as_str(), name);
    }
}

#[test]
fn devices_and_formats_are_chosen_by_name() {
    assert_eq!(choose_by_name(None, None, SOME).unwrap(), (DeviceKind::Auto, Quant::F32));
    assert_eq!(
        choose_by_name(Some("cpu"), Some("q8"), SOME).unwrap(),
        (DeviceKind::Cpu, Quant::Q80)
    );
    let why = |d, q, b| choose_by_name(d, q, b).unwrap_err().message();
    assert!(why(Some("tpu"), Some("zz"), NONE).starts_with("unknown device 'tpu'"));
    assert!(why(Some("cuda"), Some("zz"), NONE).starts_with("unsupported quantization 'zz'"));
    assert_eq!(
        why(None, Some("q8"), SOME),
        "quantization (q8_0) is CPU-only, but the selected device is Vulkan"
    );
    assert_eq!(
        why(Some("cuda"), None, SOME),
        "device 'cuda' is not available in this build; available: [\"vulkan\", \"metal\", \"cpu\"]"
    );
}

#[test]
fn local_configs_are_files_or_called_like_one() {
    assert!(is_local_config("x", true));
    assert!(is_local_config("a/config.json", false));
    assert!(is_local_config(".json", false));
    assert!(!is_local_config("json", false));
    assert!(!is_local_config("kyutai/pocket-tts", false));
    assert_eq!(local_model_file(true), "model.safetensors");
    assert_eq!(local_model_file(false), "model.q8.gguf");
}

#[test]
fn calls_speak_with_a_voice_that_is_there() {
    let voices = vec!["alba".to_string(), "marius".to_string()];
    let some = |s: &str| Some(s.to_string());
    check_voice(None, &voices).unwrap();
    check_voice(Some("alba"), &voices).unwrap();
    assert_eq!(
        check_voice(Some("x"), &voices).unwrap_err().message(),
        "unknown voice 'x'; available voices are [\"alba\", \"marius\"]"
    );
    let pick = |voice, default: Option<String>, known: &Vec<String>| {
        call_options(voice, &default, known, None, Some(3), None)
    };
    assert_eq!(pick(some("a"), some("b"), &voices).voice.as_deref(), Some("a"));
    assert_eq!(pick(None, some("b"), &voices).voice.as_deref(), Some("b"));
    assert_eq!(pick(None, None, &voices).voice.as_deref(), Some("alba"));
    let bare = pick(None, None, &vec![]);
    assert_eq!((bare.voice, bare.seed, bare.max_tokens_per_chunk), (None, Some(3), None));
}

#[test]
fn arrays_are_taken_by_their_shape() {
    assert_eq!(embedding_dims(&vec![5, 7]).unwrap(), (5, 7));
    assert_eq!(embedding_dims(&vec![1, 5, 7]).unwrap(), (5, 7));
    for bad in [vec![], vec![3], vec![2, 5, 7], vec![1, 1, 5, 7]] {
        assert_eq!(
            embedding_dims(&bad).unwrap_err().message(),
            format!("expected an embedding of shape [T, dim] or [1, T, dim], got {bad:?}")
        );
    }
}

#[test]
fn a_model_shows_itself() {
    assert_eq!(
        repr("cpu", Quant::Q80, 24000, &vec!["alba".to_string()]),
        "TTS(device='cpu', quant='q8_0', sample_rate=24000, voices=[\"alba\"])"
    );
}

#[test]
fn a_checkpoint_is_located_by_what_names_it() {
    assert!(matches!(locate(Some("m"), true), Artifacts::Local { config } if config == "m"));
    assert!(matches!(locate(Some("m.json"), false), Artifacts::Local { .. }));
    match locate(Some("me/mine"), false) {
        Artifacts::Hub { repo, files } => {
            assert_eq!((repo.owner.as_str(), repo.name.as_str()), ("me", "mine"));
            assert_eq!((files.config, files.weights), (Some("config.json"), "model.q8.gguf"));
            assert_eq!((files.tokenizer, files.voices.len()), ("tokenizer.json", 0));
        }
        other => panic!("{other:?}"),
    }
    match locate(None, false) {
        Artifacts::Hub { repo, files } => {
            assert_eq!(repo.repo_id, "kyutai/pocket-tts");
            assert_eq!((files.config, files.weights), (None, "tts_b6369a24.safetensors"));
            assert_eq!(files.voices[0].file, "embeddings/alba.safetensors");
        }
        other => panic!("{other:?}"),
    }
}

#[test]
fn failures_raise_the_exception_their_class_calls_for() {
    let m = || "m".to_string();
    for (e, name) in [
        (Error::InvalidArgument(m()), "ValueError"),
        (Error::UnknownVoice { name: m(), known: vec![] }, "LookupError"),
        (Error::NotFound(m()), "LookupError"),
        (Error::Unsupported(m()), "NotImplementedError"),
        (Error::SeqBudgetExceeded { needed: 2, budget: 1 }, "RuntimeError"),
        (Error::VoicePromptTooLong { frames: 2, budget: 1 }, "RuntimeError"),
        (Error::InvalidData(m()), "RuntimeError"),
        (Error::Busy(m()), "RuntimeError"),
        (Error::Io { kind: std::io::ErrorKind::NotFound, text: m() }, "RuntimeError"),
        (Error::Tensor(TensorError { text: m(), cause: Cause::Other }), "RuntimeError"),
    ] {
        assert_eq!(exception_of(&e).name(), name, "{e:?}");
    }
    let raised = |e: &Error| exception_of(e).name();
    // A bad argument: an unknown weight format, a mis-shaped array.
    assert_eq!(raised(&choose_by_name(None, Some("q3"), SOME).unwrap_err()), "ValueError");
    assert_eq!(raised(&embedding_dims(&vec![1, 2, 3, 4]).unwrap_err()), "ValueError");
    // An unknown voice.
    assert_eq!(raised(&check_voice(Some("x"), &vec![]).unwrap_err()), "LookupError");
    // A backend that is not built in.
    assert_eq!(
        raised(&choose_by_name(Some("cuda"), None, SOME).unwrap_err()),
        "NotImplementedError"
    );
}

#[test]
fn a_gated_repository_says_how_to_authenticate() {
    let repo = HfRepo::model("kyutai/pocket-tts");
    let (e, why) = fetch_exception(&repo, "config.json", HubFault::Gated, "Forbidden");
    assert_eq!(e.name(), "PermissionError");
    assert_eq!(
        why,
        "failed to fetch `config.json` from model repo `kyutai/pocket-tts`: Forbidden; the repo \
         is gated: accept its terms at https://huggingface.co/kyutai/pocket-tts and set HF_TOKEN \
         to an access token"
    );
    for (fault, expected) in
        [(HubFault::Missing, Exception::LookupError), (HubFault::Other, Exception::RuntimeError)]
    {
        let (e, why) = fetch_exception(&repo, "config.json", fault, "no");
        assert_eq!(e, expected);
        assert_eq!(why, "failed to fetch `config.json` from model repo `kyutai/pocket-tts`: no");
    }
}
