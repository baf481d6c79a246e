use open_duck_playground::{
    command_for_key, imitation_index, key_command, reference_pose, AdvanceAction, KeyCommand,
    PoseSequencer, ViewerError,
};

/// The reference motion of a record whose `i`-th polynomial is the constant `i`.
fn constant_reference() -> Vec<f64> {
    (0..40).map(|i| i as f64).collect()
}

fn expected_joints(reference: &[f64]) -> Vec<f64> {
    let joints_pos = &reference[0..16];
    let mut ref_joint_pos = Vec::with_capacity(14);
    ref_joint_pos.extend_from_slice(&joints_pos[0..9]);
    ref_joint_pos.extend_from_slice(&joints_pos[11..16]);
    ref_joint_pos
}

/// One tick; `sample` gives the reference motion at a reference step.
fn advance(
    pose: &mut PoseSequencer<f64>,
    command_is_zero: bool,
    sample: impl Fn(usize) -> Vec<f64>,
) -> Result<Vec<f64>, ViewerError> {
    match pose.begin_advance(command_is_zero) {
        AdvanceAction::PoseReady => {}
        AdvanceAction::SampleReference { step } => {
            let index = imitation_index(step, 10);
            pose.finish_advance(&sample(index))?;
        }
    }
    Ok(pose.current_pose().clone())
}

#[test]
fn advances_pose_when_command_active() {
    let default_qpos = vec![0.0; 30];
    let mut pose = PoseSequencer::new(default_qpos).with_decimation(1);
    let reference = constant_reference();
    let first = advance(&mut pose, false, |_| constant_reference()).unwrap();
    let ref_joint_pos = expected_joints(&reference);
    assert_eq!(&first[7..21], ref_joint_pos.as_slice());
    assert_eq!(pose.step(), 1);

    let second = advance(&mut pose, false, |_| constant_reference()).unwrap();
    assert_eq!(&second[7..21], ref_joint_pos.as_slice());
    assert_eq!(pose.step(), 2);
}

#[test]
fn resets_when_command_zero() {
    let default_qpos = vec![1.0; 30];
    let mut pose = PoseSequencer::new(default_qpos.clone()).with_decimation(1);
    advance(&mut pose, false, |_| constant_reference()).unwrap();
    let pose_now = advance(&mut pose, true, |_| constant_reference()).unwrap();
    assert_eq!(pose_now, default_qpos);
    assert_eq!(pose.step(), 0);
}

#[test]
fn sampled_step_wraps_the_period() {
    let mut pose = PoseSequencer::new(vec![0.0; 21]).with_decimation(1);
    let mut seen = Vec::new();
    for _ in 0..12 {
        advance(&mut pose, false, |index| {
            // Encode the sampled reference step in the first joint.
            let mut reference = constant_reference();
            reference[0] = index as f64;
            reference
        })
        .unwrap();
        seen.push(pose.current_pose()[7]);
    }
    let expected: Vec<f64> = (0..12).map(|i| (i % 10) as f64).collect();
    assert_eq!(seen, expected);
}

#[test]
fn pose_changes_only_every_decimation_ticks() {
    let mut pose = PoseSequencer::new(vec![0.0; 21]);
    assert_eq!(pose.decimation(), 10);
    let reference = constant_reference();
    for tick in 1..10 {
        assert_eq!(pose.begin_advance(false), AdvanceAction::PoseReady);
        assert_eq!(pose.counter(), tick);
    }
    assert_eq!(pose.begin_advance(false), AdvanceAction::SampleReference { step: 0 });
    pose.finish_advance(&reference).unwrap();
    assert_eq!(pose.current_pose()[7], 0.0);
    assert_eq!(pose.current_pose()[16], 11.0);
    assert_eq!(pose.step(), 1);
}

#[test]
fn zero_decimation_counts_as_one() {
    let pose = PoseSequencer::new(vec![0u8; 3]).with_decimation(0);
    assert_eq!(pose.decimation(), 1);
    let pose = pose.with_decimation(4);
    assert_eq!(pose.decimation(), 4);
}

#[test]
fn wrong_reference_length_is_refused_without_change() {
    let mut pose = PoseSequencer::new(vec![2.0; 30]).with_decimation(1);
    assert_eq!(pose.begin_advance(false), AdvanceAction::SampleReference { step: 0 });
    let short = vec![0.0; 39];
    assert_eq!(
        pose.finish_advance(&short),
        Err(ViewerError::UnexpectedReferenceLength(39))
    );
    assert_eq!(pose.current_pose(), &vec![2.0; 30]);
    assert_eq!(pose.step(), 0);
    assert_eq!(pose.counter(), 1);
}

#[test]
fn reset_returns_to_the_default_pose() {
    let mut pose = PoseSequencer::new(vec![3.0; 25]).with_decimation(1);
    pose.begin_advance(false);
    pose.finish_advance(&constant_reference()).unwrap();
    assert_ne!(pose.current_pose(), &vec![3.0; 25]);
    pose.reset();
    assert_eq!(pose.current_pose(), &vec![3.0; 25]);
    assert_eq!(pose.counter(), 0);
    assert_eq!(pose.step(), 0);
}

#[test]
fn reference_pose_layout() {
    let default_pose: Vec<i32> = (100..125).collect();
    let reference: Vec<i32> = (0..40).collect();
    let pose = reference_pose(&default_pose, &reference);
    let mut expected: Vec<i32> = (100..107).collect();
    expected.extend(0..9);
    expected.extend(11..16);
    expected.extend(121..125);
    assert_eq!(pose, expected);
}

#[test]
fn keyboard_codes() {
    assert_eq!(key_command(265), KeyCommand::Forward);
    assert_eq!(key_command(264), KeyCommand::Backward);
    assert_eq!(key_command(263), KeyCommand::Left);
    assert_eq!(key_command(262), KeyCommand::Right);
    assert_eq!(key_command(81), KeyCommand::RotateLeft);
    assert_eq!(key_command(69), KeyCommand::RotateRight);
    assert_eq!(key_command(32), KeyCommand::Idle);
    assert_eq!(key_command(0), KeyCommand::Idle);
}

#[test]
fn key_commands_select_range_ends() {
    let x = (-0.15, 0.15);
    let y = (-0.2, 0.2);
    let theta = (-1.0, 1.0);
    assert_eq!(command_for_key(KeyCommand::Forward, x, y, theta, 0.0), (0.15, 0.0, 0.0));
    assert_eq!(command_for_key(KeyCommand::Backward, x, y, theta, 0.0), (-0.15, 0.0, 0.0));
    assert_eq!(command_for_key(KeyCommand::Left, x, y, theta, 0.0), (0.0, 0.2, 0.0));
    assert_eq!(command_for_key(KeyCommand::Right, x, y, theta, 0.0), (0.0, -0.2, 0.0));
    assert_eq!(command_for_key(KeyCommand::RotateLeft, x, y, theta, 0.0), (0.0, 0.0, 1.0));
    assert_eq!(command_for_key(KeyCommand::RotateRight, x, y, theta, 0.0), (0.0, 0.0, -1.0));
    assert_eq!(command_for_key(KeyCommand::Idle, x, y, theta, 0.0), (0.0, 0.0, 0.0));
}

#[test]
fn imitation_index_wraps_the_period() {
    assert_eq!(imitation_index(0, 10), 0);
    assert_eq!(imitation_index(23, 10), 3);
    assert_eq!(imitation_index(usize::MAX, 1), 0);
}

#[test]
fn key_commands_stay_within_ranges_and_repeat() {
    let x = (-0.15, 0.15);
    let y = (-0.2, 0.2);
    let theta = (-1.0, 1.0);
    for key in [
        KeyCommand::Forward,
        KeyCommand::Backward,
        KeyCommand::Left,
        KeyCommand::Right,
        KeyCommand::RotateLeft,
        KeyCommand::RotateRight,
        KeyCommand::Idle,
    ] {
        let c = command_for_key(key, x, y, theta, 0.0);
        assert!(x.0 <= c.0 && c.0 <= x.1);
        assert!(y.0 <= c.1 && c.1 <= y.1);
        assert!(theta.0 <= c.2 && c.2 <= theta.1);
        assert_eq!(command_for_key(key, x, y, theta, 0.0), c);
    }
}
