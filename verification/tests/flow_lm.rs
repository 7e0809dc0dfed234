use ptts::conditioners::LUTConditioner;
use ptts::flow_lm::{
    eos_from_logit, flow_net_sizes, kept_positions, load_plan, lsd_steps, num_speakers_condition,
    transformer_sizes, FlowLMConfig, FlowNetSizes, LutExtras, ReplayRng, TransformerSizes,
};

#[test]
fn replay_rng_cycles_and_rejects_empty() {
    let mut rng = ReplayRng::new(vec![1.0, 2.0]).unwrap();
    assert_eq!([rng.sample(), rng.sample(), rng.sample()], [1.0, 2.0, 1.0]);
    assert!(ReplayRng::<f32>::new(vec![]).is_err());
}

#[test]
fn the_kth_replayed_value_is_found_by_counting_round() {
    let values = vec![3, 1, 4, 1, 5];
    let mut rng = ReplayRng::new(values.clone()).unwrap();
    for k in 0..23 {
        assert_eq!(rng.sample(), values[k % values.len()]);
    }
    assert_eq!(
        ReplayRng::<u8>::new(vec![]).err().unwrap().text,
        "ReplayRng needs at least one value"
    );
}

fn config() -> FlowLMConfig {
    FlowLMConfig {
        d_model: 1024,
        num_heads: 16,
        num_layers: 6,
        dim_feedforward: 4096,
        max_period: 10000f32.to_bits(),
        n_bins: 4000,
        lut_dim: 1024,
        flow_dim: 512,
        flow_depth: 6,
        ldim: 32,
    }
}

#[test]
fn a_checkpoint_is_read_tensor_by_tensor() {
    let bare = LutExtras { learnt_padding: false, output_proj: false };
    let plan: Vec<(String, Vec<usize>)> =
        load_plan(&config(), bare, None).into_iter().map(|t| (t.name, t.dims)).collect();
    let expected = [
        ("conditioner.embed.weight", vec![4001, 1024]),
        ("emb_std", vec![32]),
        ("emb_mean", vec![32]),
        ("bos_emb", vec![32]),
        ("input_linear.weight", vec![1024, 32]),
        ("out_norm.weight", vec![1024]),
        ("out_norm.bias", vec![1024]),
        ("out_eos.weight", vec![1, 1024]),
        ("out_eos.bias", vec![1]),
    ];
    let expected: Vec<(String, Vec<usize>)> =
        expected.into_iter().map(|(n, d)| (n.to_string(), d)).collect();
    assert_eq!(plan, expected);

    let full = LutExtras { learnt_padding: true, output_proj: true };
    let names: Vec<String> =
        load_plan(&config(), full, Some(full)).into_iter().map(|t| t.name).collect();
    assert_eq!(
        names[..6],
        [
            "conditioner.embed.weight",
            "conditioner.learnt_padding",
            "conditioner.output_proj.weight",
            "condition_provider.conditioners.num_speakers.embed.weight",
            "condition_provider.conditioners.num_speakers.learnt_padding",
            "condition_provider.conditioners.num_speakers.output_proj.weight",
        ]
    );
    let speakers = &load_plan(&config(), full, Some(full))[3];
    assert_eq!(speakers.dims, vec![32, 16]);
}

#[test]
fn the_decode_goes_from_noise_to_the_sample() {
    let steps = lsd_steps(4);
    assert_eq!(steps.len(), 4);
    assert_eq!((steps[0].from, steps[0].to, steps[0].of), (0, 1, 4));
    assert_eq!((steps[3].from, steps[3].to, steps[3].of), (3, 4, 4));
    assert!(lsd_steps(0).is_empty());
    assert_eq!(kept_positions(10, 1), (9, 10));
    assert_eq!(kept_positions(3, 3), (0, 3));
}

#[test]
fn eos_compares_like_floating_point() {
    let values = [
        0.0f32,
        -0.0,
        1.0,
        -1.0,
        -4.0,
        0.5,
        f32::MIN_POSITIVE,
        -f32::MIN_POSITIVE,
        f32::MAX,
        f32::MIN,
        f32::INFINITY,
        f32::NEG_INFINITY,
        f32::NAN,
        -f32::NAN,
    ];
    for a in values {
        for b in values {
            assert_eq!(eos_from_logit(&[a.to_bits(), 7], b.to_bits()), a > b, "{a} {b}");
        }
    }
    assert!(!eos_from_logit(&[], (-1f32).to_bits()));
}

#[test]
fn the_parts_of_the_model_are_sized_by_its_config() {
    let flow = FlowNetSizes {
        in_channels: 32,
        model_channels: 512,
        out_channels: 32,
        cond_channels: 1024,
        num_res_blocks: 6,
        num_time_conds: 2,
    };
    assert_eq!(flow_net_sizes(&config()), flow);
    let transformer = TransformerSizes {
        d_model: 1024,
        num_heads: 16,
        num_layers: 6,
        dim_feedforward: 4096,
        max_period: 10000f32.to_bits(),
    };
    assert_eq!(transformer_sizes(&config()), transformer);
    let table = LUTConditioner::<()>::load(31, false, None, 16, 1024);
    let lookup = num_speakers_condition(&table);
    assert_eq!((lookup.ids, lookup.shape), (vec![1], [1, 1, 1024]));
}
