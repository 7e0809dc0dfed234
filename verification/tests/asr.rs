use ptts::asr::{
    check_frame, frame_rate, language_condition, mimi_config, remap_key as remap_asr_key, AsrState,
    Condition, Event, WordDecoder, FRAME_SIZE, SAMPLE_RATE, TOKEN_EOP, TOKEN_EOS, TOKEN_PAD,
    TOKEN_SILENCE_PAD,
};
use ptts::asr_quantizer::{code_dims, latent_dims, MimiQuantizer};

fn shown(events: Vec<Event>) -> Vec<String> {
    events
        .into_iter()
        .map(|e| match e {
            Event::Word { tokens, start } => format!("word {tokens:?} from {start}"),
            Event::EndWord { stop } => format!("end at {stop}"),
            Event::EndOfStream => "end of stream".to_string(),
        })
        .collect()
}

#[test]
fn words_close_when_the_model_says_so() {
    let mut d = WordDecoder::new(2);
    // The first token comes before the delay is over.
    assert!(shown(d.push(9)).is_empty());
    assert!(shown(d.push(10)).is_empty());
    assert!(shown(d.push(11)).is_empty());
    assert_eq!(shown(d.push(TOKEN_PAD)), ["word [10, 11] from 0"]);
    assert!(shown(d.push(TOKEN_SILENCE_PAD)).is_empty());
    assert_eq!(shown(d.push(TOKEN_EOP)), ["end at 4"]);
    assert!(shown(d.push(TOKEN_EOP)).is_empty());
    assert!(shown(d.push(12)).is_empty());
    assert_eq!(shown(d.push(TOKEN_EOS)), ["word [12] from 5", "end at 7", "end of stream"]);
}

#[test]
fn no_token_of_a_word_is_lost() {
    let tokens = [5, 6, 3, 7, 0, 8, 9, 4, 2, 10];
    let mut d = WordDecoder::new(0);
    let mut words = Vec::new();
    let mut ends = 0;
    let mut last = 0;
    for t in tokens {
        for e in d.push(t) {
            match e {
                Event::Word { tokens, start } => {
                    words.extend(tokens);
                    assert_eq!(start, last);
                    ends += 1;
                }
                Event::EndWord { stop } => {
                    assert!(stop >= last);
                    last = stop;
                    assert!(ends > 0);
                    ends -= 1;
                }
                Event::EndOfStream => {}
            }
        }
    }
    assert_eq!(words, [5, 6, 7, 8, 9]);
}

#[test]
fn asr_weights_are_renamed() {
    assert_eq!(
        remap_asr_key("layers.0.self_attn.in_proj_weight").as_deref(),
        Some("layers.0.self_attn.in_proj.weight")
    );
    assert_eq!(
        remap_asr_key("encoder.0.conv.conv.weight").as_deref(),
        Some("encoder.0.conv.weight")
    );
    assert_eq!(remap_asr_key("x").as_deref(), Some("x"));
}

#[test]
fn the_codec_is_the_one_the_model_was_trained_with() {
    let c = mimi_config();
    assert_eq!((c.channels, c.sample_rate, c.dimension), (1, 24000, 512));
    assert_eq!(c.ratios, [8, 6, 5, 4]);
    assert_eq!(c.ratios.iter().product::<usize>() * 2, FRAME_SIZE);
    assert_eq!(
        c.transformer_layer_scale.num as f64 / c.transformer_layer_scale.den as f64,
        0.01
    );
    assert_eq!(c.transformer_max_period.num, 10000);
    let rate = frame_rate();
    assert_eq!(rate.num as f64 / rate.den as f64, 12.5);
    assert_eq!(SAMPLE_RATE as f64 / 12.5, FRAME_SIZE as f64);
}

#[test]
fn a_language_has_to_be_known() {
    let known = vec!["en".to_string(), "fr".to_string()];
    assert!(matches!(language_condition(None, Some("xx")), Ok(Condition::Absent)));
    assert!(matches!(language_condition(Some(&known), None), Ok(Condition::Padding)));
    assert!(
        matches!(language_condition(Some(&known), Some("fr")), Ok(Condition::Language(l)) if l == "fr")
    );
    let language = "x\"x";
    assert_eq!(
        language_condition(Some(&known), Some(language)).unwrap_err().text,
        format!("unknown language {language:?}, expected one of {known:?}")
    );
}

#[test]
fn the_first_frame_is_padded() {
    check_frame(1920).unwrap();
    assert_eq!(check_frame(3).unwrap_err().text, "asr frame must be 1920 samples, got 3");
    let mut s = AsrState::new(1, 48000, 2048, 3);
    assert_eq!(s.lm_step(vec![1, 2, 3]), (48000, vec![2048; 3]));
    assert!(s.push_token(10).is_empty());
    assert_eq!(s.lm_step(vec![4, 5, 6]), (10, vec![4, 5, 6]));
    assert_eq!(shown(s.push_token(TOKEN_EOS)), [
        "word [10] from 0",
        "end at 1",
        "end of stream"
    ]);
}

#[test]
fn the_quantizer_is_split() {
    assert_eq!(
        MimiQuantizer::load(512, 256, 1, 2048).unwrap_err().text,
        "expected at least 2 codebooks, got 1"
    );
    let q = MimiQuantizer::load(512, 256, 3, 2048).unwrap();
    assert_eq!((q.rvq_first.layers, q.rvq_rest.layers), (1, 2));
    let tensors: Vec<(String, Vec<usize>)> =
        q.tensors().into_iter().map(|t| (t.name, t.dims)).collect();
    let expected = [
        ("rvq_first.input_proj.weight", vec![256, 512, 1]),
        ("rvq_first.vq.layers.0._codebook.cluster_usage", vec![2048]),
        ("rvq_first.vq.layers.0._codebook.embedding_sum", vec![2048, 256]),
        ("rvq_rest.input_proj.weight", vec![256, 512, 1]),
        ("rvq_rest.vq.layers.0._codebook.cluster_usage", vec![2048]),
        ("rvq_rest.vq.layers.0._codebook.embedding_sum", vec![2048, 256]),
        ("rvq_rest.vq.layers.1._codebook.cluster_usage", vec![2048]),
        ("rvq_rest.vq.layers.1._codebook.embedding_sum", vec![2048, 256]),
    ];
    let expected: Vec<(String, Vec<usize>)> =
        expected.into_iter().map(|(n, d)| (n.to_string(), d)).collect();
    assert_eq!(tensors, expected);
    assert_eq!(q.encode(vec![1], vec![2, 3]), [1, 2, 3]);
    assert_eq!(code_dims(&vec![1, 5, 256]), [1, 5]);
    assert_eq!(latent_dims(&vec![1, 5], 256), [1, 5, 256]);
    assert!(code_dims(&vec![256]).is_empty());
}
