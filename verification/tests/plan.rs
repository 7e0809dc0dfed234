use ptts::plan::{frame_budget, seq_budget, EosPolicy, FrameRate};

const CODEC: FrameRate = FrameRate { num: 25, den: 2 };

#[test]
fn frame_budget_matches_the_frontends() {
    // The literal every frontend carried: ((n / 3 + 2) * 12.5).ceil().
    for n in [0usize, 1, 7, 12, 50, 137] {
        let expected = ((n as f64 / 3.0 + 2.0) * 12.5).ceil() as usize;
        assert_eq!(frame_budget(n, CODEC), expected, "n = {n}");
    }
    assert_eq!(frame_budget(0, CODEC), 25);
    assert_eq!(frame_budget(50, CODEC), 234);
}

#[test]
fn frame_budget_agrees_with_floating_point() {
    for n in 0..20_000usize {
        let expected = ((n as f64 / 3.0 + 2.0) * 12.5).ceil() as usize;
        assert_eq!(frame_budget(n, CODEC), expected, "n = {n}");
    }
    assert_eq!(frame_budget(usize::MAX, FrameRate { num: 25, den: 1 }), usize::MAX);
    assert_eq!(frame_budget(7, FrameRate { num: 0, den: 1 }), 0);
}

#[test]
fn frame_budget_follows_the_frame_rate() {
    assert_eq!(frame_budget(30, CODEC), frame_budget(30, FrameRate { num: 25, den: 1 }) / 2);
}

#[test]
fn seq_budget_covers_tokens_frames_and_headroom() {
    assert_eq!(seq_budget(40, 234), 40 + 512 + 234);
}

/// The countdown spelled out. `EosPolicy` must agree with it frame for frame.
fn reference(eos_at: Option<usize>, frames_after_eos: usize, max_frames: usize) -> usize {
    let mut eos_countdown: Option<usize> = None;
    let mut emitted = 0;
    for step in 0..max_frames {
        emitted += 1;
        let is_eos = eos_at == Some(step);
        if is_eos && eos_countdown.is_none() {
            eos_countdown = Some(frames_after_eos);
        }
        if let Some(ref mut countdown) = eos_countdown {
            if *countdown == 0 {
                break;
            }
            *countdown -= 1;
        }
    }
    emitted
}

fn under_test(eos_at: Option<usize>, frames_after_eos: usize, max_frames: usize) -> usize {
    let mut policy = EosPolicy::new(frames_after_eos);
    let mut emitted = 0;
    for step in 0..max_frames {
        emitted += 1;
        if policy.should_stop(eos_at == Some(step)) {
            break;
        }
    }
    emitted
}

#[test]
fn eos_policy_matches_the_reference_loop() {
    for frames_after_eos in [0usize, 1, 3] {
        for eos_at in [None, Some(0), Some(1), Some(5), Some(19)] {
            for max_frames in [1usize, 6, 20] {
                assert_eq!(
                    under_test(eos_at, frames_after_eos, max_frames),
                    reference(eos_at, frames_after_eos, max_frames),
                    "frames_after_eos = {frames_after_eos}, eos_at = {eos_at:?}, max = {max_frames}"
                );
            }
        }
    }
}

#[test]
fn eos_policy_emits_the_eos_frame_plus_the_tail() {
    // EOS on frame 5 with a 1-frame tail: frames 0..=6 are emitted.
    assert_eq!(under_test(Some(5), 1, 100), 7);
    // A 3-frame tail emits three more.
    assert_eq!(under_test(Some(5), 3, 100), 9);
    // No EOS: capped by max_frames.
    assert_eq!(under_test(None, 1, 100), 100);
}

#[test]
fn eos_policy_reports_eos() {
    let mut policy = EosPolicy::new(1);
    assert!(!policy.saw_eos());
    policy.should_stop(false);
    assert!(!policy.saw_eos());
    policy.should_stop(true);
    assert!(policy.saw_eos());
}

#[test]
fn a_second_eos_does_not_restart_the_tail() {
    let mut policy = EosPolicy::new(2);
    assert!(!policy.should_stop(true));
    assert!(!policy.should_stop(true));
    assert!(policy.should_stop(true));
    assert!(policy.should_stop(false));
}
