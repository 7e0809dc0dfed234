use ptts::error::Error;
use ptts::loader::{
    check_model_ext, check_recorded_ext, does_add_up, header_len, is_unused_by_tts_model,
    load_voice_emb_from_bytes, pick_voice_tensor, plan_voice, remap_key,
    safetensors_header_from_bytes, speaker_proj_shape, voice_layout, weights_format, NamedShape,
    VoiceLayout, VoicePlan, VoiceTensor, WeightsFormat, BROKEN_VOICE_FILE, SPEAKER_PROJ_WEIGHT,
};
use xn::nn::{Linear, VB};
use xn::{CpuDevice, Tensor, CPU};

#[test]
fn remap_key_renames_and_drops() {
    // Dropped outright.
    for dropped in [
        "flow_lm.flow.w_s_t",
        "mimi.quantizer.vq.something",
        "mimi.quantizer.logvar_proj.weight",
    ] {
        assert_eq!(remap_key(dropped), None, "expected {dropped} to be dropped");
    }

    let cases = [
        (
            "flow_lm.condition_provider.conditioners.speaker_wavs.output_proj.weight",
            "flow_lm.speaker_proj_weight",
        ),
        (
            "flow_lm.condition_provider.conditioners.transcript_in_segment.emb.weight",
            "flow_lm.conditioner.emb.weight",
        ),
        (
            "flow_lm.backbone.layers.0.linear1.weight",
            "flow_lm.transformer.layers.0.linear1.weight",
        ),
        ("mimi.model.decoder.layers.0.weight", "mimi.decoder.layers.0.weight"),
    ];
    for (from, to) in cases {
        assert_eq!(remap_key(from).as_deref(), Some(to), "input: {from}");
    }

    // Anything unrecognized passes through untouched.
    assert_eq!(
        remap_key("mimi.decoder.layers.0.weight").as_deref(),
        Some("mimi.decoder.layers.0.weight")
    );
}

#[test]
fn flow_lm_flow_is_renamed_not_dropped() {
    // `flow.w_s_t` is dropped but `flow.` alone is a rename; the two must not be confused.
    assert_eq!(
        remap_key("flow_lm.flow.layers.0.weight").as_deref(),
        Some("flow_lm.flow_net.layers.0.weight")
    );
}

#[test]
fn unused_tensors_are_recognized() {
    for unused in [
        "flow_lm.condition_provider.conditioners.speaker_wavs.learnt_padding",
        "mimi.quantizer.output_proj.weight",
        "mimi.encoder.layers.0.weight",
        "speaker_mimi.encoder.weight",
        "mimi.downsample.conv.conv.weight",
        "mimi.downsample.something_else",
    ] {
        assert!(is_unused_by_tts_model(unused), "expected {unused} to be ignorable");
    }
    assert!(!is_unused_by_tts_model("flow_lm.transformer.layers.0.linear1.weight"));
    assert!(!is_unused_by_tts_model("mimi.decoder.layers.0.weight"));
    // Read by loading a voice of latents, so not ignorable.
    assert!(!is_unused_by_tts_model(SPEAKER_PROJ_WEIGHT));
}

/// A safetensors file: its header, framed by its length, and its data.
fn file(header: &str, data: &[f32]) -> Vec<u8> {
    let mut bytes = (header.len() as u64).to_le_bytes().to_vec();
    bytes.extend_from_slice(header.as_bytes());
    for v in data {
        bytes.extend_from_slice(&v.to_le_bytes());
    }
    bytes
}

#[test]
fn model_ext_is_read_from_a_header_only_read() {
    // One f32 of tensor data, so the header alone is not the whole file: the check must not need
    // the data section to parse the header.
    let tensor = r#""emb":{"dtype":"F32","shape":[1,1,1],"data_offsets":[0,4]}"#;
    let matching =
        file(&format!(r#"{{"__metadata__":{{"model_ext":"abc@1"}},{tensor}}}"#), &[0.0]);
    let header = safetensors_header_from_bytes(&matching, "voice").unwrap();
    check_model_ext(header, "voice", "abc@1").unwrap();
    assert!(check_model_ext(header, "voice", "def@2").is_err());

    // A voice from before the metadata existed is accepted as-is.
    let bare = file(&format!(r#"{{{tensor}}}"#), &[0.0]);
    check_model_ext(safetensors_header_from_bytes(&bare, "voice").unwrap(), "voice", "abc@1")
        .unwrap();
}

#[test]
fn a_header_that_is_no_json_is_invalid_data() {
    let e = check_model_ext(b"{nope", "voice", "abc@1").unwrap_err();
    let why = serde_json::from_slice::<serde_json::Value>(b"{nope").unwrap_err();
    assert!(matches!(e, Error::InvalidData(_)));
    assert_eq!(e.message(), format!("cannot parse safetensors header of voice: {why}"));
    // Metadata of another kind is as good as none.
    check_model_ext(br#"{"__metadata__":{"model_ext":3}}"#, "voice", "abc@1").unwrap();
    check_model_ext(br#"{"__metadata__":"abc@2"}"#, "voice", "abc@1").unwrap();
    check_model_ext(b"[]", "voice", "abc@1").unwrap();
    assert_eq!(
        check_recorded_ext(Some("a"), "b").unwrap_err().message(),
        "voice embedding model_ext 'a' does not match config model_ext 'b'"
    );
    check_recorded_ext(Some("b"), "b").unwrap();
    check_recorded_ext(None, "b").unwrap();
}

/// The embedding that a plan describes.
fn embedding(
    bytes: &[u8],
    plan: &VoicePlan,
    proj: Option<&Linear<f32, CpuDevice>>,
) -> Tensor<f32, CpuDevice> {
    let vb = VB::from_bytes(vec![bytes.to_vec()], CPU).unwrap();
    let shape = vb.shape(&plan.name).unwrap().clone();
    let t: Tensor<f32, CpuDevice> = vb.tensor(&plan.name, shape).unwrap();
    let t = t.reshape((1, plan.layout.rows, plan.layout.cols)).unwrap();
    if plan.layout.projected {
        let latents = t.transpose(1, 2).unwrap().contiguous().unwrap();
        proj.unwrap().forward(&latents).unwrap()
    } else {
        t
    }
}

#[test]
fn voice_emb_loads_from_bytes() {
    let tensor = r#""emb":{"dtype":"F32","shape":[2,2],"data_offsets":[0,16]}"#;
    let bytes = file(
        &format!(r#"{{"__metadata__":{{"model_ext":"abc@1"}},{tensor}}}"#),
        &[0., 1., 2., 3.],
    );

    let plan = load_voice_emb_from_bytes(&bytes, Some("abc@1"), None).unwrap();
    let emb = embedding(&bytes, &plan, None);
    assert_eq!(emb.dims(), [1, 2, 2]);
    assert_eq!(emb.to_vec().unwrap(), [0., 1., 2., 3.]);
    assert!(load_voice_emb_from_bytes(&bytes, Some("def@2"), None).is_err());

    // Too short to hold a header length, and a length past the end of the buffer.
    assert!(safetensors_header_from_bytes(&[1, 2, 3], "voice").is_err());
    assert!(safetensors_header_from_bytes(&u64::MAX.to_le_bytes(), "voice").is_err());
}

#[test]
fn voice_emb_is_batched_whatever_its_name() {
    let data: Vec<f32> = (0..6).map(|v| v as f32).collect();
    for name in ["emb", "audio_prompt"] {
        let bytes = file(
            &format!(r#"{{"{name}":{{"dtype":"F32","shape":[3,2],"data_offsets":[0,24]}}}}"#),
            &data,
        );
        let plan = load_voice_emb_from_bytes(&bytes, None, None).unwrap();
        assert_eq!(plan.layout.frames(), 3);
        let emb = embedding(&bytes, &plan, None);
        assert_eq!(emb.dims(), &[1, 3, 2], "{name}");
        assert_eq!(emb.to_vec().unwrap(), data, "{name}");
    }
}

#[test]
fn speaker_wavs_are_transposed_and_projected() {
    // C = 2 channels, T = 3 frames, latents[c][t] = 10 * c + t.
    let bytes = file(
        r#"{"speaker_wavs":{"dtype":"F32","shape":[2,3],"data_offsets":[0,24]}}"#,
        &[0., 1., 2., 10., 11., 12.],
    );

    // Latents are unusable without the projection.
    let err = load_voice_emb_from_bytes(&bytes, None, None).unwrap_err().message();
    assert!(err.contains("no speaker projection"), "{err}");

    // W = [[1, 0], [0, 2]] maps [x0, x1] to [x0, 2 * x1].
    let w = Tensor::from_vec(vec![1., 0., 0., 2.], (2, 2), &CPU).unwrap();
    let plan = load_voice_emb_from_bytes(&bytes, None, Some(2)).unwrap();
    assert_eq!(plan.layout.frames(), 3);
    let emb = embedding(&bytes, &plan, Some(&Linear::new(w)));
    assert_eq!(emb.dims(), &[1, 3, 2]);
    assert_eq!(emb.to_vec().unwrap(), vec![0., 20., 1., 22., 2., 24.]);

    // A projection expecting three channels rejects two-channel latents.
    let err = load_voice_emb_from_bytes(&bytes, None, Some(3)).unwrap_err().message();
    assert!(err.contains("2 channels") && err.contains("takes 3"), "{err}");
}

#[test]
fn broken_and_empty_voice_files_are_refused() {
    let e = load_voice_emb_from_bytes(b"not safetensors", None, None).unwrap_err();
    assert!(matches!(e, Error::Tensor(_)), "{e:?}");
    let e = load_voice_emb_from_bytes(&file("{}", &[]), None, None).unwrap_err();
    assert!(matches!(e, Error::InvalidData(_)), "{e:?}");
    assert_eq!(e.message(), "no tensors found in voice file the voice file");
    // A tensor of another type is not seen.
    let ints = file(r#"{"emb":{"dtype":"I32","shape":[1],"data_offsets":[0,4]}}"#, &[0.0]);
    assert!(load_voice_emb_from_bytes(&ints, None, None).is_err());
    // One dimension is too few.
    let flat = file(r#"{"emb":{"dtype":"F32","shape":[1],"data_offsets":[0,4]}}"#, &[0.0]);
    assert_eq!(
        load_voice_emb_from_bytes(&flat, None, None).unwrap_err().message(),
        "voice tensor `emb` in the voice file has shape [1], expected two or three dimensions"
    );
}

fn shape(name: &str, dims: &[usize]) -> NamedShape {
    NamedShape { name: name.to_string(), dims: dims.to_vec() }
}

#[test]
fn an_embedding_is_preferred_to_latents() {
    let names: Vec<String> =
        ["other", "speaker_wavs", "emb"].iter().map(|s| s.to_string()).collect();
    assert_eq!(pick_voice_tensor(&names, "v").unwrap(), ("emb".to_string(), VoiceTensor::Emb));
    assert_eq!(
        pick_voice_tensor(&names[..2].to_vec(), "v").unwrap(),
        ("speaker_wavs".to_string(), VoiceTensor::Latents)
    );
    assert_eq!(
        pick_voice_tensor(&names[..1].to_vec(), "v").unwrap(),
        ("other".to_string(), VoiceTensor::Emb)
    );
    assert_eq!(
        pick_voice_tensor(&vec![], "v").unwrap_err().message(),
        "no tensors found in voice file v"
    );
    let tensors = vec![shape("speaker_wavs", &[1, 32, 7]), shape("zzz", &[9])];
    let plan = plan_voice(&tensors, "v", Some(32)).unwrap();
    assert_eq!(plan.name, "speaker_wavs");
    assert_eq!(plan.kind, VoiceTensor::Latents);
    assert_eq!(plan.layout, VoiceLayout { rows: 32, cols: 7, projected: true });
}

#[test]
fn layouts_are_refused_with_what_is_wrong() {
    let of = |dims: &[usize], kind, proj| voice_layout("t", kind, &dims.to_vec(), "v", proj);
    assert_eq!(
        of(&[1, 5, 4], VoiceTensor::Emb, Some(9)).unwrap(),
        VoiceLayout { rows: 5, cols: 4, projected: false }
    );
    assert_eq!(
        of(&[], VoiceTensor::Emb, None).unwrap_err().message(),
        "voice tensor `t` in v has shape [], expected two or three dimensions"
    );
    assert_eq!(
        of(&[1, 2, 3, 4], VoiceTensor::Latents, None).unwrap_err().message(),
        "voice tensor `t` in v has shape [1, 2, 3, 4], expected two or three dimensions"
    );
    assert_eq!(
        of(&[2, 3], VoiceTensor::Latents, Some(3)).unwrap_err().message(),
        "`speaker_wavs` in v has 2 channels but the speaker projection takes 3"
    );
}

#[test]
fn headers_are_framed_by_their_length() {
    for len in [0usize, 1, 255, 256, 70_000] {
        let header = vec![b'x'; len];
        let mut bytes = (len as u64).to_le_bytes().to_vec();
        bytes.extend_from_slice(&header);
        bytes.extend_from_slice(b"data");
        assert_eq!(safetensors_header_from_bytes(&bytes, "v").unwrap(), &header[..]);
        assert_eq!(header_len(&bytes, "v").unwrap(), len);
    }
    let limit: u64 = 100 * 1024 * 1024;
    assert_eq!(header_len(&limit.to_le_bytes(), "v").unwrap(), limit as usize);
    let e = header_len(&(limit + 1).to_le_bytes(), "v").unwrap_err();
    assert_eq!(e.message(), "v does not look like a safetensors file");
    assert!(header_len(&u64::MAX.to_le_bytes(), "v").is_err());
    assert!(safetensors_header_from_bytes(&[4, 0, 0, 0, 0, 0, 0, 0, 1, 2, 3], "v").is_err());
}

#[test]
fn formats_follow_the_extension() {
    assert_eq!(weights_format(Some("gguf")), WeightsFormat::Gguf);
    assert_eq!(weights_format(Some("GGUF")), WeightsFormat::Safetensors);
    assert_eq!(weights_format(Some("safetensors")), WeightsFormat::Safetensors);
    assert_eq!(weights_format(None), WeightsFormat::Safetensors);
    assert_eq!(speaker_proj_shape(true, 1024, 512), Some((1024, 512)));
    assert_eq!(speaker_proj_shape(false, 1024, 512), None);
}

/// A header that declares `count` tensors of `size` bytes each, one behind the other.
fn declared(count: usize, size: usize) -> String {
    let tensor = |i: usize| {
        let (from, to) = (i * size, (i + 1) * size);
        format!(r#""t{i}":{{"dtype":"U8","shape":[{size}],"data_offsets":[{from},{to}]}}"#)
    };
    format!("{{{}}}", (0..count).map(tensor).collect::<Vec<_>>().join(","))
}

#[test]
fn sizes_that_cannot_be_added_up_are_refused() {
    let refused = |bytes: &[u8]| match load_voice_emb_from_bytes(bytes, None, None) {
        Err(Error::Tensor(e)) => e.text,
        other => panic!("{other:?}"),
    };
    let bytes = file(&declared(8, usize::MAX / 8), &[]);
    assert!(!does_add_up(&bytes));
    assert_eq!(refused(&bytes), BROKEN_VOICE_FILE);
    // The sum fits, and the data is not there.
    let bytes = file(&declared(7, usize::MAX / 8), &[]);
    assert!(does_add_up(&bytes));
    assert_ne!(refused(&bytes), BROKEN_VOICE_FILE);
    // A tensor can be written as a list.
    let end = usize::MAX - 7;
    let list = format!(r#"{{"emb":["U8",[{end}],[0,{end}]]}}"#);
    assert!(!does_add_up(&file(&list, &[])));
    let list = file(r#"{"emb":["F32",[1,1],[0,4]]}"#, &[0.0]);
    assert!(does_add_up(&list));
    assert_eq!(load_voice_emb_from_bytes(&list, None, None).unwrap().name, "emb");
    // A member that is no tensor ends nowhere.
    let named = r#"{"__metadata__":{"a":"b"},"emb":{"dtype":"F32","shape":[1,1],"data_offsets":[0,4]}}"#;
    assert!(does_add_up(&file(named, &[0.0])));
    assert!(does_add_up(&file("{}", &[])));
    // No header, no JSON, no object.
    for broken in [b"short".to_vec(), file("no json", &[]), file("[1]", &[])] {
        assert!(!does_add_up(&broken));
        assert_eq!(refused(&broken), BROKEN_VOICE_FILE);
    }
}

#[test]
fn the_sum_of_sizes_may_be_the_largest_number() {
    // The length of the header counts too: 8 bytes, and as many as it has itself.
    let header = |end: usize| format!(r#"{{"t":{{"data_offsets":[0,{end}]}}}}"#);
    let most = usize::MAX - 8 - header(usize::MAX).len();
    assert_eq!(header(most).len(), header(usize::MAX).len());
    assert!(does_add_up(&file(&header(most), &[])));
    assert!(!does_add_up(&file(&header(most + 1), &[])));
}

#[test]
fn a_renamed_key_holds_no_old_part() {
    let old = [
        "flow_lm.condition_provider.conditioners.speaker_wavs.output_proj.weight",
        "flow_lm.condition_provider.conditioners.transcript_in_segment.",
        "flow_lm.backbone.",
        "flow_lm.flow.",
        "mimi.model.",
    ];
    for one in old {
        for other in old {
            let name = remap_key(&format!("{one}{other}{one}x")).unwrap();
            for part in old {
                assert!(!name.contains(part), "{name}");
            }
        }
    }
    // The codec's part is taken off once.
    assert_eq!(remap_key("mimi.model.model.x").unwrap(), "mimi.model.x");
}
