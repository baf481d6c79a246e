//! The integer and indexing logic of the reference-motion viewer: keyboard
//! commands, the command a key selects, and the pose sequencer that decides
//! on every tick whether the displayed pose is kept, reset to the default
//! pose or rebuilt from a sampled reference motion.
use vstd::prelude::*;

verus! {

/// Number of entries of one sampled reference motion.
pub const REFERENCE_LEN: usize = 40;

/// Index in a pose where the actuated joint positions start.
pub const JOINTS_START: usize = 7;

/// The reference joint positions are the first `REFERENCE_JOINTS_END`
/// entries of a reference motion.
pub const REFERENCE_JOINTS_END: usize = 16;

/// Reference joints `SKIPPED_START..SKIPPED_END` are not written into the pose.
pub const SKIPPED_START: usize = 9;

/// End of the reference joints that are not written into the pose.
pub const SKIPPED_END: usize = 11;

/// Index in a pose just after the last joint written from a reference motion.
pub const JOINTS_END: usize = 21;

/// The decimation a new viewer starts with.
pub const DEFAULT_DECIMATION: usize = 10;

/// A discrete motion command from the keyboard.
#[derive(Clone, Copy, Debug, PartialEq, Eq, Structural)]
pub enum KeyCommand {
    Forward,
    Backward,
    Left,
    Right,
    RotateLeft,
    RotateRight,
    Idle,
}

/// Errors of the viewer.
#[derive(Clone, Copy, Debug, PartialEq, Eq, Structural)]
pub enum ViewerError {
    /// A reference motion did not have `REFERENCE_LEN` entries.
    UnexpectedReferenceLength(usize),
    /// The joints of a pose and of a reference motion differ in number.
    JointDimensionMismatch { expected: usize, found: usize },
}

/// Key code of the up arrow.
pub const KEY_UP: u32 = 265;

/// Key code of the down arrow.
pub const KEY_DOWN: u32 = 264;

/// Key code of the left arrow.
pub const KEY_LEFT: u32 = 263;

/// Key code of the right arrow.
pub const KEY_RIGHT: u32 = 262;

/// Key code of `Q`.
pub const KEY_Q: u32 = 81;

/// Key code of `E`.
pub const KEY_E: u32 = 69;

/// The command that a key code stands for.
pub open spec fn spec_key_command(keycode: u32) -> KeyCommand {
    if keycode == KEY_UP {
        KeyCommand::Forward
    } else if keycode == KEY_DOWN {
        KeyCommand::Backward
    } else if keycode == KEY_LEFT {
        KeyCommand::Left
    } else if keycode == KEY_RIGHT {
        KeyCommand::Right
    } else if keycode == KEY_Q {
        KeyCommand::RotateLeft
    } else if keycode == KEY_E {
        KeyCommand::RotateRight
    } else {
        KeyCommand::Idle
    }
}

/// Each command comes from exactly one key code: up arrow (265) forward,
/// down arrow (264) backward, left arrow (263) left, right arrow (262)
/// right, `Q` (81) rotate left, `E` (69) rotate right; every other key code
/// gives `Idle`.
pub proof fn lemma_key_command_table(keycode: u32)
    ensures
        (spec_key_command(keycode) == KeyCommand::Forward) == (keycode == 265),
        (spec_key_command(keycode) == KeyCommand::Backward) == (keycode == 264),
        (spec_key_command(keycode) == KeyCommand::Left) == (keycode == 263),
        (spec_key_command(keycode) == KeyCommand::Right) == (keycode == 262),
        (spec_key_command(keycode) == KeyCommand::RotateLeft) == (keycode == 81),
        (spec_key_command(keycode) == KeyCommand::RotateRight) == (keycode == 69),
        (spec_key_command(keycode) == KeyCommand::Idle) == (keycode != 265 && keycode != 264
            && keycode != 263 && keycode != 262 && keycode != 81 && keycode != 69),
{
}

/// Maps a keyboard key code to a command: the arrows move, `Q` and `E`
/// rotate, every other key stops.
pub fn key_command(keycode: u32) -> (command: KeyCommand)
    ensures
        command == spec_key_command(keycode),
        (command == KeyCommand::Forward) == (keycode == 265),
        (command == KeyCommand::Backward) == (keycode == 264),
        (command == KeyCommand::Left) == (keycode == 263),
        (command == KeyCommand::Right) == (keycode == 262),
        (command == KeyCommand::RotateLeft) == (keycode == 81),
        (command == KeyCommand::RotateRight) == (keycode == 69),
        (command == KeyCommand::Idle) == (keycode != 265 && keycode != 264 && keycode != 263
            && keycode != 262 && keycode != 81 && keycode != 69),
{
    proof {
        lemma_key_command_table(keycode);
    }
    if keycode == KEY_UP {
        KeyCommand::Forward
    } else if keycode == KEY_DOWN {
        KeyCommand::Backward
    } else if keycode == KEY_LEFT {
        KeyCommand::Left
    } else if keycode == KEY_RIGHT {
        KeyCommand::Right
    } else if keycode == KEY_Q {
        KeyCommand::RotateLeft
    } else if keycode == KEY_E {
        KeyCommand::RotateRight
    } else {
        KeyCommand::Idle
    }
}

/// The `(dx, dy, dtheta)` command that a key selects, given the
/// `(min, max)` range of each axis and the zero of the value type.
pub open spec fn spec_command_for_key<T>(key: KeyCommand, x: (T, T), y: (T, T), theta: (T, T), zero: T) -> (T, T, T) {
    match key {
        KeyCommand::Forward => (x.1, zero, zero),
        KeyCommand::Backward => (x.0, zero, zero),
        KeyCommand::Left => (zero, y.1, zero),
        KeyCommand::Right => (zero, y.0, zero),
        KeyCommand::RotateLeft => (zero, zero, theta.1),
        KeyCommand::RotateRight => (zero, zero, theta.0),
        KeyCommand::Idle => (zero, zero, zero),
    }
}

/// The command a key selects: full speed along one axis, towards the
/// range's maximum or minimum, the other axes at zero; `Idle` stops.
pub fn command_for_key<T: Copy>(key: KeyCommand, x: (T, T), y: (T, T), theta: (T, T), zero: T) -> (command: (T, T, T))
    ensures
        command == spec_command_for_key(key, x, y, theta, zero),
{
    match key {
        KeyCommand::Forward => (x.1, zero, zero),
        KeyCommand::Backward => (x.0, zero, zero),
        KeyCommand::Left => (zero, y.1, zero),
        KeyCommand::Right => (zero, y.0, zero),
        KeyCommand::RotateLeft => (zero, zero, theta.1),
        KeyCommand::RotateRight => (zero, zero, theta.0),
        KeyCommand::Idle => (zero, zero, zero),
    }
}

/// The command a key selects is a function of the key and the ranges
/// alone (it has no previous command to depend on, so selecting it a
/// second time changes nothing); every axis is at an end
/// of its range or at zero, so when zero lies in every range (for an order
/// `le` that is reflexive and transitive) the command lies in the ranges.
pub proof fn lemma_key_command_in_ranges<T>(
    key: KeyCommand,
    x: (T, T),
    y: (T, T),
    theta: (T, T),
    zero: T,
    le: spec_fn(T, T) -> bool,
)
    requires
        forall|a: T| #[trigger] le(a, a),
        forall|a: T, b: T, c: T| #![trigger le(a, b), le(b, c)] le(a, b) && le(b, c) ==> le(a, c),
        le(x.0, zero) && le(zero, x.1),
        le(y.0, zero) && le(zero, y.1),
        le(theta.0, zero) && le(zero, theta.1),
    ensures
        ({
            let c = spec_command_for_key(key, x, y, theta, zero);
            &&& le(x.0, c.0) && le(c.0, x.1)
            &&& le(y.0, c.1) && le(c.1, y.1)
            &&& le(theta.0, c.2) && le(c.2, theta.1)
        }),
{
    assert(le(x.0, x.1));
    assert(le(y.0, y.1));
    assert(le(theta.0, theta.1));
    assert(le(x.0, x.0) && le(x.1, x.1) && le(y.0, y.0) && le(y.1, y.1));
    assert(le(theta.0, theta.0) && le(theta.1, theta.1));
}

/// The pose built from a default pose and a reference motion: the default
/// pose with entries `JOINTS_START..JOINTS_END` replaced by reference
/// joints `0..SKIPPED_START` followed by `SKIPPED_END..REFERENCE_JOINTS_END`.
pub open spec fn spec_reference_pose<T>(default_pose: Seq<T>, reference: Seq<T>) -> Seq<T> {
    default_pose.subrange(0, JOINTS_START as int) + reference.subrange(0, SKIPPED_START as int)
        + reference.subrange(SKIPPED_END as int, REFERENCE_JOINTS_END as int) + default_pose.subrange(
        JOINTS_END as int,
        default_pose.len() as int,
    )
}

/// The pose built from a reference motion keeps the length of the default
/// pose and every default entry outside `JOINTS_START..JOINTS_END`; inside,
/// it holds reference joints `0..SKIPPED_START`, then
/// `SKIPPED_END..REFERENCE_JOINTS_END`.
pub proof fn lemma_reference_pose_layout<T>(default_pose: Seq<T>, reference: Seq<T>)
    requires
        default_pose.len() >= JOINTS_END,
        reference.len() >= REFERENCE_JOINTS_END,
    ensures
        spec_reference_pose(default_pose, reference).len() == default_pose.len(),
        forall|i: int|
            0 <= i < JOINTS_START ==> #[trigger] spec_reference_pose(default_pose, reference)[i] == default_pose[i],
        forall|i: int|
            JOINTS_END <= i < default_pose.len() ==> #[trigger] spec_reference_pose(default_pose, reference)[i]
                == default_pose[i],
        forall|j: int|
            0 <= j < SKIPPED_START ==> #[trigger] spec_reference_pose(default_pose, reference)[JOINTS_START + j]
                == reference[j],
        forall|j: int|
            0 <= j < REFERENCE_JOINTS_END - SKIPPED_END ==> #[trigger] spec_reference_pose(
                default_pose,
                reference,
            )[JOINTS_START + SKIPPED_START + j] == reference[SKIPPED_END + j],
{
}

/// Copies a list of values.
fn copy_values<T: Copy>(values: &Vec<T>) -> (copy: Vec<T>)
    ensures
        copy@ == values@,
{
    let mut copy: Vec<T> = Vec::new();
    for i in 0..values.len()
        invariant
            copy.len() == i,
            i <= values.len(),
            forall|j: int| 0 <= j < i ==> copy@[j] == values@[j],
    {
        copy.push(values[i]);
    }
    assert(copy@ =~= values@);
    copy
}

/// Appends `values[start..end]` to `out`.
fn push_range<T: Copy>(out: &mut Vec<T>, values: &Vec<T>, start: usize, end: usize)
    requires
        start <= end <= values.len(),
    ensures
        final(out)@ == old(out)@ + values@.subrange(start as int, end as int),
{
    let ghost before = out@;
    for i in start..end
        invariant
            start <= end <= values.len(),
            out@ == before + values@.subrange(start as int, i as int),
    {
        out.push(values[i]);
        assert(values@.subrange(start as int, i + 1) =~= values@.subrange(start as int, i as int).push(values@[i as int]));
    }
}

/// Builds the pose for a sampled reference motion (see `spec_reference_pose`).
pub fn reference_pose<T: Copy>(default_pose: &Vec<T>, reference: &Vec<T>) -> (pose: Vec<T>)
    requires
        default_pose.len() >= JOINTS_END,
        reference.len() >= REFERENCE_JOINTS_END,
    ensures
        pose@ == spec_reference_pose(default_pose@, reference@),
{
    let mut pose: Vec<T> = Vec::new();
    push_range(&mut pose, default_pose, 0, JOINTS_START);
    push_range(&mut pose, reference, 0, SKIPPED_START);
    push_range(&mut pose, reference, SKIPPED_END, REFERENCE_JOINTS_END);
    push_range(&mut pose, default_pose, JOINTS_END, default_pose.len());
    assert(pose@ =~= spec_reference_pose(default_pose@, reference@));
    pose
}

/// The reference step that is sampled at a given step count.
pub fn imitation_index(step: usize, steps_in_period: usize) -> (index: usize)
    requires
        steps_in_period > 0,
    ensures
        index == step % steps_in_period,
        index < steps_in_period,
{
    step % steps_in_period
}

/// What the caller of `begin_advance` does next.
#[derive(Clone, Copy, Debug, PartialEq, Eq, Structural)]
pub enum AdvanceAction {
    /// The current pose is the one to show.
    PoseReady,
    /// Sample the reference motion for this step count, then call `finish_advance`.
    SampleReference { step: usize },
}

/// The state of a pose sequencer, as the contracts see it.
pub struct PoseState<T> {
    pub default_pose: Seq<T>,
    pub decimation: usize,
    pub counter: usize,
    pub step: usize,
    pub pose: Seq<T>,
}

/// The pose state of the reference-motion viewer: every `decimation` ticks
/// the pose is rebuilt, from the reference motion while a command is given
/// and from the default pose otherwise.
pub struct PoseSequencer<T> {
    default_pose: Vec<T>,
    decimation: usize,
    counter: usize,
    step: usize,
    current_pose: Vec<T>,
}

impl<T> View for PoseSequencer<T> {
    type V = PoseState<T>;

    closed spec fn view(&self) -> PoseState<T> {
        PoseState {
            default_pose: self.default_pose@,
            decimation: self.decimation,
            counter: self.counter,
            step: self.step,
            pose: self.current_pose@,
        }
    }
}

impl<T> PoseSequencer<T> {
    #[verifier::type_invariant]
    spec fn well_formed(self) -> bool {
        self.decimation >= 1
    }
}

impl<T: Copy> PoseSequencer<T> {
    /// A sequencer showing `default_pose`, with decimation `DEFAULT_DECIMATION`
    /// and its counters at zero.
    pub fn new(default_pose: Vec<T>) -> (s: Self)
        ensures
            s@.default_pose == default_pose@,
            s@.pose == default_pose@,
            s@.decimation == DEFAULT_DECIMATION,
            s@.counter == 0,
            s@.step == 0,
    {
        let current_pose = copy_values(&default_pose);
        PoseSequencer { default_pose, decimation: DEFAULT_DECIMATION, counter: 0, step: 0, current_pose }
    }

    /// The same sequencer with decimation `decimation`; a decimation of zero becomes one.
    pub fn with_decimation(self, decimation: usize) -> (s: Self)
        ensures
            s@.decimation == if decimation < 1 { 1 } else { decimation },
            s@.default_pose == self@.default_pose,
            s@.pose == self@.pose,
            s@.counter == self@.counter,
            s@.step == self@.step,
    {
        let mut s = self;
        s.decimation = if decimation < 1 { 1 } else { decimation };
        s
    }

    /// The number of ticks between two pose updates, never zero.
    pub fn decimation(&self) -> (d: usize)
        ensures
            d == self@.decimation,
            d >= 1,
    {
        proof {
            use_type_invariant(self);
        }
        self.decimation
    }

    /// The number of ticks so far, saturating.
    pub fn counter(&self) -> (c: usize)
        ensures
            c == self@.counter,
    {
        self.counter
    }

    /// The number of reference steps played since the last stop.
    pub fn step(&self) -> (s: usize)
        ensures
            s == self@.step,
    {
        self.step
    }

    /// The pose shown when no command is given.
    pub fn default_pose(&self) -> (p: &Vec<T>)
        ensures
            p@ == self@.default_pose,
    {
        &self.default_pose
    }

    /// The pose currently shown.
    pub fn current_pose(&self) -> (p: &Vec<T>)
        ensures
            p@ == self@.pose,
    {
        &self.current_pose
    }

    /// Back to the default pose, with both counters at zero.
    pub fn reset(&mut self)
        ensures
            final(self)@.pose == old(self)@.default_pose,
            final(self)@.default_pose == old(self)@.default_pose,
            final(self)@.decimation == old(self)@.decimation,
            final(self)@.counter == 0,
            final(self)@.step == 0,
    {
        proof {
            use_type_invariant(&*self);
        }
        self.counter = 0;
        self.step = 0;
        self.current_pose = copy_values(&self.default_pose);
    }

    /// One tick. The counter advances (saturating). When it reaches a
    /// multiple of the decimation the pose is due: with no command it is
    /// reset to the default pose and the step count to zero; with a command
    /// the caller must sample the reference motion at the returned step count.
    pub fn begin_advance(&mut self, command_is_zero: bool) -> (action: AdvanceAction)
        ensures
            final(self)@.counter == old(self)@.counter.saturating_add(1),
            final(self)@.default_pose == old(self)@.default_pose,
            final(self)@.decimation == old(self)@.decimation,
            final(self)@.counter % final(self)@.decimation != 0 ==> {
                &&& action == AdvanceAction::PoseReady
                &&& final(self)@.pose == old(self)@.pose
                &&& final(self)@.step == old(self)@.step
            },
            final(self)@.counter % final(self)@.decimation == 0 && command_is_zero ==> {
                &&& action == AdvanceAction::PoseReady
                &&& final(self)@.pose == old(self)@.default_pose
                &&& final(self)@.step == 0
            },
            final(self)@.counter % final(self)@.decimation == 0 && !command_is_zero ==> {
                &&& action == (AdvanceAction::SampleReference { step: old(self)@.step })
                &&& final(self)@.pose == old(self)@.pose
                &&& final(self)@.step == old(self)@.step
            },
    {
        proof {
            use_type_invariant(&*self);
        }
        self.counter = self.counter.saturating_add(1);
        if self.counter % self.decimation != 0 {
            return AdvanceAction::PoseReady;
        }
        if command_is_zero {
            self.step = 0;
            self.current_pose = copy_values(&self.default_pose);
            AdvanceAction::PoseReady
        } else {
            AdvanceAction::SampleReference { step: self.step }
        }
    }

    /// Completes a tick with the reference motion sampled for it. A
    /// reference of the wrong length is refused and nothing changes;
    /// otherwise the pose is rebuilt from it and the step count advances
    /// (wrapping).
    pub fn finish_advance(&mut self, reference: &Vec<T>) -> (result: Result<(), ViewerError>)
        requires
            reference.len() == REFERENCE_LEN ==> old(self)@.default_pose.len() >= JOINTS_END,
        ensures
            reference.len() != REFERENCE_LEN ==> {
                &&& result == Err::<(), ViewerError>(ViewerError::UnexpectedReferenceLength(reference.len()))
                &&& final(self)@ == old(self)@
            },
            reference.len() == REFERENCE_LEN ==> {
                &&& result is Ok
                &&& final(self)@.pose == spec_reference_pose(old(self)@.default_pose, reference@)
                &&& final(self)@.step == old(self)@.step.wrapping_add(1)
                &&& final(self)@.counter == old(self)@.counter
                &&& final(self)@.decimation == old(self)@.decimation
                &&& final(self)@.default_pose == old(self)@.default_pose
            },
    {
        if reference.len() != REFERENCE_LEN {
            return Err(ViewerError::UnexpectedReferenceLength(reference.len()));
        }
        proof {
            use_type_invariant(&*self);
        }
        self.current_pose = reference_pose(&self.default_pose, reference);
        self.step = self.step.wrapping_add(1);
        Ok(())
    }
}

} // verus!
