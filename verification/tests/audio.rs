use ptts::audio::{
    check_decoded, choose_track, file_error, resample_copy, takes_packet, Feed, Resampling, Stage,
    Track,
};
use rubato::Resampler;

#[test]
fn resampling_to_the_same_rate_is_a_copy() {
    let pcm = vec![0.1, -0.2, 0.3];
    assert_eq!(resample_copy(&pcm, 24000, 24000).unwrap(), pcm);
    assert!(resample_copy(&pcm, 16000, 24000).is_none());
}

/// Resample block by block, as the library says.
fn resample(pcm: &[f32], sr_in: usize, sr_out: usize) -> Vec<f32> {
    let mut resampler = rubato::FftFixedInOut::<f32>::new(sr_in, sr_out, 1024, 1).unwrap();
    let mut buf = resampler.output_buffer_allocate(true);
    let mut out = Vec::new();
    let mut state = Resampling::new(pcm.len());
    loop {
        match state.feed(resampler.input_frames_next()) {
            Feed::Block { from } => {
                let (used, made) =
                    resampler.process_into_buffer(&[&pcm[from..]], &mut buf, None).unwrap();
                state.took(used);
                out.extend_from_slice(&buf[0][..made]);
            }
            Feed::Rest { from } => {
                let rest: &[&[f32]] = &[&pcm[from..]];
                let (_, made) =
                    resampler.process_partial_into_buffer(Some(rest), &mut buf, None).unwrap();
                state.took_rest();
                out.extend_from_slice(&buf[0][..made]);
            }
            Feed::Done => return out,
        }
    }
}

#[test]
fn resampling_scales_the_length() {
    // 2s at 16kHz to 24kHz should land near 2s again; the FFT resampler works in blocks, so
    // allow a block of slack.
    let pcm = vec![0f32; 32_000];
    let out = resample(&pcm, 16_000, 24_000);
    assert!(
        (out.len() as f64 - 48_000.0).abs() < 2048.0,
        "expected ~48000 samples, got {}",
        out.len()
    );
}

#[test]
fn blocks_are_handed_over_in_order() {
    let mut state = Resampling::new(10);
    assert_eq!(state.feed(4), Feed::Block { from: 0 });
    state.took(4);
    assert_eq!(state.feed(4), Feed::Block { from: 4 });
    state.took(4);
    // A block has to be shorter than what is left.
    assert_eq!(state.feed(2), Feed::Rest { from: 8 });
    assert_eq!(state.feed(1), Feed::Block { from: 8 });
    state.took_rest();
    assert_eq!(state.feed(1), Feed::Done);
    assert_eq!(Resampling::new(0).feed(5), Feed::Done);
}

#[test]
fn a_missing_file_names_itself() {
    let why = std::io::Error::from(std::io::ErrorKind::NotFound).to_string();
    let err = file_error(Stage::Open, "/nope/not-audio.wav", &why).text;
    assert!(err.contains("/nope/not-audio.wav"), "{err}");
    assert_eq!(err, format!("cannot open /nope/not-audio.wav: {why}"));
    assert_eq!(file_error(Stage::Read, "a", "b").text, "cannot read a: b");
    assert_eq!(file_error(Stage::Codec, "a", "b").text, "unsupported codec in a: b");
    assert_eq!(file_error(Stage::Decode, "a", "b").text, "cannot decode a: b");
}

#[test]
fn the_first_track_with_a_codec_is_decoded() {
    let track = |id, has_codec, sample_rate| Track { id, has_codec, sample_rate };
    let tracks = vec![
        track(1, false, Some(8000)),
        track(2, true, Some(44100)),
        track(3, true, Some(24000)),
    ];
    assert_eq!(choose_track(&tracks, "f").unwrap(), (1, 44100));
    assert_eq!(
        choose_track(&vec![track(1, false, None)], "f").unwrap_err().text,
        "no audio track in f"
    );
    assert_eq!(
        choose_track(&vec![track(1, true, None)], "f").unwrap_err().text,
        "f declares no sample rate"
    );
    check_decoded(1, "f").unwrap();
    assert_eq!(check_decoded(0, "f").unwrap_err().text, "f decoded to no samples");
}

#[test]
fn packets_of_other_tracks_are_passed_over() {
    let taken: Vec<u32> = [3, 1, 3, 2].into_iter().filter(|p| takes_packet(3, *p)).collect();
    assert_eq!(taken, [3, 3]);
}
