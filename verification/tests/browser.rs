use ptts::browser::{
    is_gguf, kv_cache_name, parse_settings, prepare_words, stored_voice, voice_from_kv_cache,
    Chunk, CpuQuant, Model, Started, StoredTensor, StoredVoice,
};
use ptts::error::{Error, TensorError};
use ptts::loader::{remap_key, BROKEN_VOICE_FILE};
use ptts::plan::FrameRate;
use ptts::preprocess::rewrite::Rules;
use ptts::preprocess::{Lang, Normalize};
use ptts::synth::session::Prepared;
use ptts::web::{
    batched_dims, check_load, container, has_config, max_frames_for_tokens, parse_dtype,
    remap_key as remap_web_key, take_loaded, utterance_budget,
    voice_dims, Dtype, Utterance,
};

const CODEC: FrameRate = FrameRate { num: 25, den: 2 };

fn prepared(n: usize) -> Prepared {
    Prepared { tokens: vec![1; n], frames_after_eos: 1 }
}

fn model() -> Model {
    let mut m = Model::new();
    assert_eq!(m.add_voice(&StoredVoice::Cached { len: 100 }), 0);
    assert_eq!(m.add_voice(&StoredVoice::Cached { len: 125 }), 1);
    m
}

#[test]
fn a_text_is_generated_chunk_by_chunk() {
    let mut m = model();
    assert_eq!(m.next_chunk(), None);
    assert_eq!(m.generation_step(), None);
    let started = m.start_generation(1, Ok(()), Ok(vec![prepared(50), prepared(0)]), CODEC);
    assert_eq!(started.unwrap(), Started { chunks: 2, seq_budget: 125 + 50 + 234 });
    assert_eq!(m.generation_step(), None);
    assert_eq!(m.tokens(), None);
    assert_eq!(m.next_chunk(), Some(50));
    assert_eq!(m.tokens().map(|t| t.len()), Some(50));
    assert_eq!(m.generation_step(), Some(true));
    m.stepped(false);
    assert_eq!(m.generation_step(), Some(false));
    m.stepped(true);
    // One frame follows the one that said EOS.
    assert_eq!(m.generation_step(), Some(false));
    m.stepped(false);
    assert_eq!(m.generation_step(), None);
    assert_eq!(m.generation_step(), None);
    assert_eq!(m.next_chunk(), Some(0));
    assert!(m.tokens().unwrap().is_empty());
    let mut frames = 0;
    while m.generation_step().is_some() {
        m.stepped(false);
        frames += 1;
    }
    assert_eq!(frames, 25);
    assert_eq!(m.next_chunk(), None);
    assert_eq!(m.next_chunk(), None);
}

#[test]
fn a_failed_start_drops_the_generation_before() {
    let run = || {
        let mut m = model();
        m.start_generation(0, Ok(()), Ok(vec![prepared(3), prepared(3)]), CODEC).unwrap();
        assert_eq!(m.next_chunk(), Some(3));
        m
    };
    let e = |s: &str| TensorError::msg(s);
    let mut m = run();
    let r = m.start_generation(9, Err(e("bad variance")), Err(e("tokens")), CODEC);
    assert_eq!(r.unwrap_err().text, "bad variance");
    assert_eq!((m.generation_step(), m.next_chunk()), (None, None));
    let mut m = run();
    let r = m.start_generation(9, Ok(()), Err(e("tokens")), CODEC);
    assert_eq!(r.unwrap_err().text, "invalid voice index: 9");
    assert_eq!((m.generation_step(), m.next_chunk()), (None, None));
    let mut m = run();
    let r = m.start_generation(0, Ok(()), Err(e("tokens")), CODEC);
    assert_eq!(r.unwrap_err().text, "tokens");
    assert_eq!(m.next_chunk(), None);
    let mut m = run();
    let r = m.start_generation(0, Ok(()), Ok(vec![]), CODEC);
    assert_eq!(r.unwrap_err().text, "nothing to synthesize: the text is empty");
    assert_eq!(m.next_chunk(), None);
    let mut m = run();
    m.stop_generation();
    assert_eq!((m.generation_step(), m.next_chunk()), (None, None));
}

#[test]
fn a_chunk_emits_its_tail() {
    for (eos_at, tail, budget, expected) in
        [(5usize, 1, 100, 7), (5, 3, 100, 9), (0, 0, 100, 1), (5, 3, 6, 6), (200, 1, 100, 100)]
    {
        let mut c = Chunk::new(budget, tail);
        let mut n = 0;
        while !c.is_over() {
            assert_eq!(c.is_first(), n == 0);
            c.stepped(n == eos_at);
            n += 1;
        }
        assert_eq!(n, expected);
    }
    assert!(Chunk::new(0, 3).is_over());
}

#[test]
fn pages_name_their_settings() {
    let s = parse_settings("q8", "de", None).unwrap();
    assert_eq!((s.quant, s.normalize), (CpuQuant::Q8, Normalize::For(Lang::De)));
    assert_eq!(s.rules, Rules::all());
    assert_eq!(prepare_words("1500 @ home", &s), "ein Tausend 500 ät home");
    let plain = parse_settings("f32", "en", Some("none")).unwrap();
    assert_eq!(prepare_words("1500 @ home", &plain), "1500 at home");
    let off = parse_settings("f32", "off", Some("numbers")).unwrap();
    assert_eq!(prepare_words(" 1500  @ home", &off), " 1500  @ home");
    let why = |q, l, r| parse_settings(q, l, r).unwrap_err().text;
    assert_eq!(why("q4", "xx", Some("zz")), "unsupported quantization 'q4', expected 'f32' or 'q8'");
    assert!(why("q8", "xx", Some("zz")).contains("unknown rewrite rule: zz"));
    assert!(why("q8", "xx", None).contains("unsupported language code: xx"));
}

fn stored(name: &str, single: bool, dims: &[usize]) -> StoredTensor {
    StoredTensor { name: name.to_string(), single, dims: dims.to_vec() }
}

#[test]
fn kv_caches_hold_keys_and_values() {
    assert_eq!(kv_cache_name(3), "transformer.layers.3.self_attn/cache");
    let cache = |i, dims: &[usize]| stored(&kv_cache_name(i), true, dims);
    let good = |i| cache(i, &[2, 1, 125 + i, 16, 64]);
    let why = |t: Vec<StoredTensor>, n| voice_from_kv_cache(&t, n).unwrap_err().text;
    assert_eq!(voice_from_kv_cache(&vec![good(1), good(0)], 2).unwrap(), 125);
    assert_eq!(voice_from_kv_cache(&vec![], 0).unwrap(), 0);
    // The first layer at fault is named.
    assert_eq!(
        why(vec![cache(2, &[3, 1, 5, 16, 64]), good(0)], 3),
        "expected f32 tensor: transformer.layers.1.self_attn/cache"
    );
    assert_eq!(
        why(vec![stored(&kv_cache_name(0), false, &[2, 1, 5, 16, 64])], 1),
        "expected f32 tensor: transformer.layers.0.self_attn/cache"
    );
    assert_eq!(
        why(vec![good(0), cache(1, &[2, 5])], 2),
        "unexpected number of dims, expected 5, got shape [2, 5]"
    );
    assert_eq!(
        why(vec![cache(0, &[3, 1, 5, 16, 64])], 2),
        "transformer.layers.0.self_attn/cache: expected a first dim of size 2, got 3"
    );
}

/// A safetensors file with this header, and as many bytes of data.
fn file(header: &str, data: usize) -> Vec<u8> {
    let mut bytes = (header.len() as u64).to_le_bytes().to_vec();
    bytes.extend_from_slice(header.as_bytes());
    bytes.resize(bytes.len() + data, 0);
    bytes
}

fn layer(i: usize, dtype: &str, dims: &str, from: usize, to: usize) -> String {
    format!(
        r#""{}":{{"dtype":"{dtype}","shape":{dims},"data_offsets":[{from},{to}]}}"#,
        kv_cache_name(i)
    )
}

#[test]
fn a_voice_file_is_told_apart_by_its_tensors() {
    let read = |bytes: &[u8]| stored_voice(bytes, 2, None, Some(3));
    // Two layers of two keys and two values.
    let both =
        format!("{{{},{}}}", layer(0, "F32", "[2,1,2,1,1]", 0, 16), layer(1, "F32", "[2,1,2,1,1]", 16, 32));
    match read(&file(&both, 32)).unwrap() {
        StoredVoice::Cached { len } => assert_eq!(len, 2),
        other => panic!("{other:?}"),
    }
    let one = format!("{{{}}}", layer(0, "F32", "[2,1,2,1,1]", 0, 16));
    assert_eq!(
        read(&file(&one, 16)).unwrap_err().message(),
        "expected f32 tensor: transformer.layers.1.self_attn/cache"
    );
    let half = format!("{{{}}}", layer(0, "F16", "[2,1,2,1,1]", 0, 8));
    assert_eq!(
        read(&file(&half, 8)).unwrap_err().message(),
        "expected f32 tensor: transformer.layers.0.self_attn/cache"
    );
    // The cache of a later layer alone makes no KV-cache voice.
    let later = format!("{{{}}}", layer(1, "F32", "[2,4]", 0, 32));
    match read(&file(&later, 32)).unwrap() {
        StoredVoice::Embedding(plan) => assert_eq!(plan.name, kv_cache_name(1)),
        other => panic!("{other:?}"),
    }
    let emb = r#"{"emb":{"dtype":"F32","shape":[1,4,2],"data_offsets":[0,32]}}"#;
    let voice = read(&file(emb, 32)).unwrap();
    assert_eq!(voice.len(), 4);
    assert_eq!(Model::new().add_voice(&voice), 0);
    let latents = r#"{"speaker_wavs":{"dtype":"F32","shape":[3,5],"data_offsets":[0,60]}}"#;
    assert_eq!(read(&file(latents, 60)).unwrap().len(), 5);
    assert!(matches!(read(b"not a file"), Err(Error::Tensor(_))));
    assert!(matches!(read(&file("{}", 0)), Err(Error::InvalidData(_))));
}

#[test]
fn a_page_registers_the_embedding_of_a_file() {
    let emb = r#"{"e":{"dtype":"F16","shape":[4,2],"data_offsets":[0,16]}}"#;
    assert_eq!(voice_dims(true, &file(emb, 16)).unwrap(), [1, 4, 2]);
    let batched = r#"{"e":{"dtype":"F32","shape":[1,4,2],"data_offsets":[0,32]}}"#;
    assert_eq!(voice_dims(true, &file(batched, 32)).unwrap(), [1, 4, 2]);
    assert_eq!(voice_dims(false, &file(emb, 16)).unwrap_err(), "no model loaded");
    assert_eq!(voice_dims(true, &file("{}", 0)).unwrap_err(), "empty voice file");
    assert!(voice_dims(true, b"GGUF").is_err());
}

#[test]
fn a_voice_that_declares_too_much_is_refused() {
    let size = usize::MAX / 8;
    let tensor = |i: usize| layer(i, "U8", &format!("[{size}]"), i * size, (i + 1) * size);
    let header = format!("{{{}}}", (0..8).map(tensor).collect::<Vec<_>>().join(","));
    let bytes = file(&header, 0);
    assert_eq!(stored_voice(&bytes, 2, None, None).unwrap_err().message(), BROKEN_VOICE_FILE);
    assert_eq!(voice_dims(true, &bytes).unwrap_err(), BROKEN_VOICE_FILE);
    assert_eq!(voice_dims(false, &bytes).unwrap_err(), "no model loaded");
    // Data that fits in a number and is not there is missed all the same.
    let bytes = file(&format!("{{{}}}", tensor(0)), 0);
    assert_ne!(stored_voice(&bytes, 2, None, None).unwrap_err().message(), BROKEN_VOICE_FILE);
    assert_ne!(voice_dims(true, &bytes).unwrap_err(), BROKEN_VOICE_FILE);
}

#[test]
fn weights_are_told_apart_by_their_first_bytes() {
    assert!(is_gguf(b"GGUF\x03"));
    assert!(!is_gguf(b"GGU"));
    assert!(!is_gguf(b"gguf"));
    assert_eq!(container(b"GGUF"), "gguf");
    assert_eq!(container(b""), "safetensors");
}

#[test]
fn a_browser_needs_weights_it_can_load() {
    assert_eq!(check_load("F32", false, b"{}").unwrap(), "f32");
    assert_eq!(check_load("Q8", false, b"GGUF").unwrap(), "q8");
    assert_eq!(
        check_load("F16", false, b"").unwrap_err(),
        "dtype 'f16' needs WGSL shader-f16, which this adapter does not report"
    );
    assert!(check_load("q8f16", false, b"GGUF").is_err());
    assert!(check_load("q8_0f16", false, b"GGUF").is_err());
    assert_eq!(check_load("Q8_0F16", true, b"GGUF").unwrap(), "q8_0f16");
    assert_eq!(
        check_load("q8", true, b"\x10\0 {\"a\":1}").unwrap_err(),
        "a q8 dtype needs gguf weights in a browser: quantizing from safetensors reads every \
         weight back to the host, which deadlocks here. Got 10 bytes starting \"...{\\\"a\\\":\" -- \
         load model.q8.gguf instead."
    );
    for (name, dtype) in [
        ("f32", Dtype::F32),
        ("f16", Dtype::F16),
        ("q8", Dtype::Q80F32),
        ("q8_0", Dtype::Q80F32),
        ("q8f16", Dtype::Q80F16),
        ("q8_0f16", Dtype::Q80F16),
    ] {
        assert_eq!(parse_dtype(name).unwrap(), dtype);
    }
    assert_eq!(parse_dtype("bf16").unwrap_err(), "unknown dtype 'bf16'");
    assert!(has_config(Some(" {} ")));
    assert!(!has_config(Some(" \n")));
    assert!(!has_config(None));
}

#[test]
fn web_weights_are_renamed_like_any_others() {
    for name in [
        "flow_lm.condition_provider.conditioners.speaker_wavs.learnt_padding",
        "flow_lm.condition_provider.conditioners.transcript_in_segment.learnt_padding",
        "flow_lm.flow.w_s_t",
        "mimi.quantizer.vq.x",
        "mimi.model.x",
        "x",
    ] {
        assert_eq!(remap_web_key(name), remap_key(name));
    }
    let kept = "flow_lm.condition_provider.conditioners.speaker_wavs.learnt_padding";
    assert_eq!(remap_web_key(kept).as_deref(), Some(kept));
    assert_eq!(remap_web_key("mimi.quantizer.vq.x"), None);
    assert_eq!(remap_web_key("mimi.model.x").as_deref(), Some("mimi.x"));
}

#[test]
fn an_utterance_has_slots_to_spare() {
    assert_eq!(max_frames_for_tokens(50), 234);
    assert_eq!(utterance_budget("a", Some(125), 50).unwrap(), (234, 125 + 50 + 234 + 16));
    assert_eq!(utterance_budget("a", None, 50).unwrap_err().text, "unknown voice 'a'");
    assert_eq!(batched_dims(&vec![3, 2]), [1, 3, 2]);
    assert_eq!(batched_dims(&vec![1, 3, 2]), [1, 3, 2]);
    let mut slot = Some(5);
    assert_eq!(take_loaded(&mut slot).unwrap(), 5);
    assert_eq!(
        take_loaded(&mut slot).unwrap_err(),
        "no model loaded (or a generation is already running)"
    );
}

/// The frames and samples that a page is handed when it refuses one of them.
fn heard(max_frames: usize, tail: usize, eos_at: usize, refused: usize) -> (usize, usize) {
    let mut u = Utterance::new(max_frames, tail);
    let mut n = 0;
    while let Some(frame) = u.next() {
        assert_eq!(frame, n);
        u.handed(1920, n == eos_at, n != refused);
        n += 1;
    }
    assert_eq!(u.next(), None);
    (u.frames(), u.samples())
}

#[test]
fn a_page_is_handed_every_frame_until_it_refuses_one() {
    let never = usize::MAX;
    assert_eq!(heard(10, 1, never, never), (10, 19200));
    assert_eq!(heard(10, 1, 4, never), (6, 6 * 1920));
    assert_eq!(heard(10, 3, 8, never), (10, 19200));
    assert_eq!(heard(10, 0, 0, never), (1, 1920));
    assert_eq!(heard(10, 1, never, 3), (4, 4 * 1920));
    assert_eq!(heard(10, 5, 2, 2), (3, 3 * 1920));
    assert_eq!(heard(0, 1, 0, 0), (0, 0));
}
