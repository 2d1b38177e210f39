//! The command manager: from fractional commands to device steps, without
//! repeating what the device has already been told.

use vstd::prelude::*;
use vstd::string::*;
use crate::decimal::{decimal, push_decimal};
use crate::dedup::{
    all_in_range, applied, in_range_prefix, lemma_applied_len, lemma_applied_unmoved,
    lemma_in_range_prefix, lemma_moved_is_some_slot_moved, lemma_one_more_write, moved, reported,
    slot_moved,
};
use crate::double::{quantize, quantized, Double};
use crate::errors::{ButtplugDeviceError, ButtplugError};
use crate::messages::{
    ButtplugDeviceCommandMessageUnion, ButtplugDeviceMessageType, CommandView, LinearCmd,
    MessageAttributes, MessageAttributesMap, RotateCmd, RotationSubcommand, VectorSubcommand,
    VibrateCmd, VibrateSubcommand,
};

verus! {

/// The state of a command manager as a mathematical value.
pub struct ManagerView {
    /// A vibrate command has been accepted.
    pub sent_vibration: bool,
    /// The step last sent to each vibrator.
    pub vibrations: Seq<u32>,
    /// The number of steps of each vibrator.
    pub vibration_step_counts: Seq<u32>,
    /// A rotate command has been accepted.
    pub sent_rotation: bool,
    /// The step and direction last sent to each rotator.
    pub rotations: Seq<(u32, bool)>,
    /// The number of steps of each rotator.
    pub rotation_step_counts: Seq<u32>,
    /// Reserved for linear commands.
    pub sent_linear: bool,
    /// Reserved for linear commands.
    pub linears: Seq<(u32, u32)>,
    /// Reserved for linear commands.
    pub linear_step_counts: Seq<u32>,
    /// The commands that bring every feature of the device to rest.
    pub stop_commands: Seq<CommandView>,
}

/// The step that an entry of a vibrate request selects on its vibrator.
pub open spec fn selected_step(step_counts: Seq<u32>, entry: VibrateSubcommand) -> u32 {
    quantized(entry.speed, step_counts[entry.index as int])
}

/// The step and direction that an entry of a rotate request selects on its
/// rotator.
pub open spec fn selected_turn(step_counts: Seq<u32>, entry: RotationSubcommand) -> (u32, bool) {
    (quantized(entry.speed, step_counts[entry.index as int]), entry.clockwise)
}

/// The writes that a vibrate request makes: each names a vibrator and the
/// step its speed selects there.
pub open spec fn vibration_writes(step_counts: Seq<u32>, speeds: Seq<VibrateSubcommand>) -> Seq<
    (int, u32),
> {
    Seq::new(
        speeds.len(),
        |j: int| (speeds[j].index as int, selected_step(step_counts, speeds[j])),
    )
}

/// The writes that a rotate request makes: each names a rotator, and the step
/// its speed selects there together with the direction.
pub open spec fn rotation_writes(step_counts: Seq<u32>, rotations: Seq<RotationSubcommand>) -> Seq<
    (int, (u32, bool)),
> {
    Seq::new(
        rotations.len(),
        |j: int| (rotations[j].index as int, selected_turn(step_counts, rotations[j])),
    )
}

/// The text of the error for a request of `requested` entries that a device
/// with `features` features of the kind refuses. `command` names the command
/// and `feature` the features, as in "VibrateCmd" and "vibrators".
pub open spec fn request_error_text(
    command: Seq<char>,
    requested: nat,
    features: nat,
    feature: Seq<char>,
) -> Seq<char> {
    if requested == 0 {
        command + " has 0 commands, will not do anything."@
    } else {
        command + " has "@ + decimal(requested) + " commands, device has "@ + decimal(features)
            + " "@ + feature + "."@
    }
}

/// The number of features a descriptor gives for `kind`.
pub open spec fn feature_count(
    attributes: Map<ButtplugDeviceMessageType, MessageAttributes>,
    kind: ButtplugDeviceMessageType,
) -> nat {
    if attributes.contains_key(kind) {
        attributes[kind].features()
    } else {
        0
    }
}

/// The step counts a descriptor gives for `kind`.
pub open spec fn step_counts(
    attributes: Map<ButtplugDeviceMessageType, MessageAttributes>,
    kind: ButtplugDeviceMessageType,
) -> Seq<u32> {
    if attributes.contains_key(kind) {
        attributes[kind].steps()
    } else {
        Seq::empty()
    }
}

/// A descriptor that a command manager can be built from: every vibrator and
/// every rotator has a step count.
pub open spec fn usable(attributes: Map<ButtplugDeviceMessageType, MessageAttributes>) -> bool {
    &&& feature_count(attributes, ButtplugDeviceMessageType::VibrateCmd) <= step_counts(
        attributes,
        ButtplugDeviceMessageType::VibrateCmd,
    ).len()
    &&& feature_count(attributes, ButtplugDeviceMessageType::RotateCmd) <= step_counts(
        attributes,
        ButtplugDeviceMessageType::RotateCmd,
    ).len()
}

/// The vibrate command that stops `features` vibrators.
pub open spec fn vibration_stop(features: nat) -> CommandView {
    CommandView::Vibrate(
        0,
        Seq::new(
            features,
            |i: int| VibrateSubcommand { index: i as u32, speed: Double::spec_zero() },
        ),
    )
}

/// The rotate command that stops `features` rotators.
pub open spec fn rotation_stop(features: nat) -> CommandView {
    CommandView::Rotate(
        0,
        Seq::new(
            features,
            |i: int|
                RotationSubcommand {
                    index: i as u32,
                    speed: Double::spec_zero(),
                    clockwise: false,
                },
        ),
    )
}

/// The linear command that brings `features` linear actuators to rest: each
/// is sent to position zero, with a duration of zero milliseconds.
pub open spec fn linear_stop(features: nat) -> CommandView {
    CommandView::Linear(
        0,
        Seq::new(
            features,
            |i: int|
                VectorSubcommand { index: i as u32, duration: 0, position: Double::spec_zero() },
        ),
    )
}

/// How many of the three kinds of command the descriptor has an entry for.
pub open spec fn kinds_present(
    attributes: Map<ButtplugDeviceMessageType, MessageAttributes>,
) -> nat {
    let vibrate: nat = if attributes.contains_key(ButtplugDeviceMessageType::VibrateCmd) {
        1
    } else {
        0
    };
    let rotate: nat = if attributes.contains_key(ButtplugDeviceMessageType::RotateCmd) {
        1
    } else {
        0
    };
    let linear: nat = if attributes.contains_key(ButtplugDeviceMessageType::LinearCmd) {
        1
    } else {
        0
    };
    vibrate + rotate + linear
}

/// The stop commands for a device, one for each kind that the descriptor has
/// an entry for: for the vibrators, then for the rotators, then for the
/// linear actuators. Each names every feature of its kind.
pub open spec fn stop_commands_for(
    attributes: Map<ButtplugDeviceMessageType, MessageAttributes>,
) -> Seq<CommandView> {
    let vibrate = if attributes.contains_key(ButtplugDeviceMessageType::VibrateCmd) {
        seq![vibration_stop(feature_count(attributes, ButtplugDeviceMessageType::VibrateCmd))]
    } else {
        Seq::empty()
    };
    let rotate = if attributes.contains_key(ButtplugDeviceMessageType::RotateCmd) {
        seq![rotation_stop(feature_count(attributes, ButtplugDeviceMessageType::RotateCmd))]
    } else {
        Seq::empty()
    };
    let linear = if attributes.contains_key(ButtplugDeviceMessageType::LinearCmd) {
        seq![linear_stop(feature_count(attributes, ButtplugDeviceMessageType::LinearCmd))]
    } else {
        Seq::empty()
    };
    vibrate + rotate + linear
}

impl ManagerView {
    /// Every vibrator and every rotator has a step count.
    pub open spec fn well_formed(self) -> bool {
        &&& self.vibrations.len() <= self.vibration_step_counts.len()
        &&& self.rotations.len() <= self.rotation_step_counts.len()
    }

    /// The state of a manager fresh from a descriptor: nothing sent, every
    /// feature at rest.
    pub open spec fn initial(
        attributes: Map<ButtplugDeviceMessageType, MessageAttributes>,
    ) -> ManagerView {
        ManagerView {
            sent_vibration: false,
            vibrations: Seq::new(
                feature_count(attributes, ButtplugDeviceMessageType::VibrateCmd),
                |i: int| 0u32,
            ),
            vibration_step_counts: step_counts(attributes, ButtplugDeviceMessageType::VibrateCmd),
            sent_rotation: false,
            rotations: Seq::new(
                feature_count(attributes, ButtplugDeviceMessageType::RotateCmd),
                |i: int| (0u32, true),
            ),
            rotation_step_counts: step_counts(attributes, ButtplugDeviceMessageType::RotateCmd),
            sent_linear: false,
            linears: Seq::new(
                feature_count(attributes, ButtplugDeviceMessageType::LinearCmd),
                |i: int| (0u32, 0u32),
            ),
            linear_step_counts: step_counts(attributes, ButtplugDeviceMessageType::LinearCmd),
            stop_commands: stop_commands_for(attributes),
        }
    }

    /// A vibrate request is valid when it is not empty and names only
    /// vibrators that the device has.
    pub open spec fn accepts_vibration(self, speeds: Seq<VibrateSubcommand>) -> bool {
        &&& speeds.len() > 0
        &&& forall|j: int|
            0 <= j < speeds.len() ==> (#[trigger] speeds[j]).index < self.vibrations.len()
    }

    /// The state after a vibrate request. The entries are applied in order up
    /// to the first that names a vibrator the device lacks; a valid request
    /// marks vibration as sent.
    pub open spec fn after_vibration(self, speeds: Seq<VibrateSubcommand>) -> ManagerView {
        let writes = vibration_writes(self.vibration_step_counts, speeds);
        let accepted = in_range_prefix(writes, self.vibrations.len());
        ManagerView {
            sent_vibration: self.sent_vibration || self.accepts_vibration(speeds),
            vibrations: applied(self.vibrations, writes.take(accepted as int)),
            ..self
        }
    }

    /// What a valid vibrate request reports. Nothing at all when vibration
    /// has been sent before and no vibrator moves. Otherwise one entry per
    /// vibrator: the new step of each that moves, and of each that the
    /// request names when this is the first request or `match_all` is set.
    pub open spec fn vibration_report(
        self,
        speeds: Seq<VibrateSubcommand>,
        match_all: bool,
    ) -> Option<Seq<Option<u32>>> {
        let writes = vibration_writes(self.vibration_step_counts, speeds);
        if !self.sent_vibration || moved(self.vibrations, writes) {
            Some(reported(self.vibrations, writes, !self.sent_vibration || match_all))
        } else {
            None
        }
    }

    /// A rotate request is valid when it is not empty and names only rotators
    /// that the device has.
    pub open spec fn accepts_rotation(self, rotations: Seq<RotationSubcommand>) -> bool {
        &&& rotations.len() > 0
        &&& forall|j: int|
            0 <= j < rotations.len() ==> (#[trigger] rotations[j]).index < self.rotations.len()
    }

    /// The state after a rotate request. The entries are applied in order up
    /// to the first that names a rotator the device lacks; a valid request
    /// marks rotation as sent.
    pub open spec fn after_rotation(self, rotations: Seq<RotationSubcommand>) -> ManagerView {
        let writes = rotation_writes(self.rotation_step_counts, rotations);
        let accepted = in_range_prefix(writes, self.rotations.len());
        ManagerView {
            sent_rotation: self.sent_rotation || self.accepts_rotation(rotations),
            rotations: applied(self.rotations, writes.take(accepted as int)),
            ..self
        }
    }

    /// What a valid rotate request reports: one entry per rotator, with the
    /// new step and direction of each that moves, and on the first request of
    /// each that the request names.
    pub open spec fn rotation_report(self, rotations: Seq<RotationSubcommand>) -> Seq<
        Option<(u32, bool)>,
    > {
        let writes = rotation_writes(self.rotation_step_counts, rotations);
        reported(self.rotations, writes, !self.sent_rotation)
    }
}

/// The views of a sequence of commands.
pub open spec fn command_views(commands: Seq<ButtplugDeviceCommandMessageUnion>) -> Seq<
    CommandView,
> {
    commands.map_values(|c: ButtplugDeviceCommandMessageUnion| c@)
}

/// Keeps, for one device, the step last sent to each feature, and turns
/// requests into what has to be sent.
pub struct GenericCommandManager {
    sent_vibration: bool,
    sent_rotation: bool,
    sent_linear: bool,
    vibrations: Vec<u32>,
    vibration_step_counts: Vec<u32>,
    rotations: Vec<(u32, bool)>,
    rotation_step_counts: Vec<u32>,
    linears: Vec<(u32, u32)>,
    linear_step_counts: Vec<u32>,
    stop_commands: Vec<ButtplugDeviceCommandMessageUnion>,
}

impl View for GenericCommandManager {
    type V = ManagerView;

    closed spec fn view(&self) -> ManagerView {
        ManagerView {
            sent_vibration: self.sent_vibration,
            vibrations: self.vibrations@,
            vibration_step_counts: self.vibration_step_counts@,
            sent_rotation: self.sent_rotation,
            rotations: self.rotations@,
            rotation_step_counts: self.rotation_step_counts@,
            sent_linear: self.sent_linear,
            linears: self.linears@,
            linear_step_counts: self.linear_step_counts@,
            stop_commands: command_views(self.stop_commands@),
        }
    }
}

/// A vector of `n` copies of `value`.
fn filled<T: Copy>(value: T, n: usize) -> (v: Vec<T>)
    ensures
        v@ == Seq::new(n as nat, |i: int| value),
{
    let mut v: Vec<T> = Vec::new();
    let mut i: usize = 0;
    while i < n
        invariant
            i <= n,
            v@ =~= Seq::new(i as nat, |j: int| value),
        decreases n - i,
    {
        v.push(value);
        i = i + 1;
    }
    v
}

/// The error for a request that a device refuses.
fn request_error(command: &str, requested: usize, features: usize, feature: &str) -> (e:
    ButtplugError)
    ensures
        e.is_invalid_command(
            request_error_text(command@, requested as nat, features as nat, feature@),
        ),
{
    let mut text = String::from_str(command);
    if requested == 0 {
        text.append(" has 0 commands, will not do anything.");
    } else {
        text.append(" has ");
        push_decimal(&mut text, requested);
        text.append(" commands, device has ");
        push_decimal(&mut text, features);
        text.append(" ");
        text.append(feature);
        text.append(".");
    }
    ButtplugError::from(ButtplugDeviceError::InvalidCommand(text))
}

impl GenericCommandManager {
    #[verifier::type_invariant]
    spec fn every_feature_has_steps(&self) -> bool {
        &&& self.vibrations.len() <= self.vibration_step_counts.len()
        &&& self.rotations.len() <= self.rotation_step_counts.len()
    }

    /// Whether a manager can be built from `attributes`.
    pub fn accepts(attributes: &MessageAttributesMap) -> (b: bool)
        ensures
            b == usable(attributes@),
    {
        let vibrate = match attributes.get(&ButtplugDeviceMessageType::VibrateCmd) {
            Some(a) => a.has_step_counts(),
            None => true,
        };
        let rotate = match attributes.get(&ButtplugDeviceMessageType::RotateCmd) {
            Some(a) => a.has_step_counts(),
            None => true,
        };
        vibrate && rotate
    }

    /// A manager for the device that `attributes` describes.
    pub fn new(attributes: &MessageAttributesMap) -> (manager: GenericCommandManager)
        requires
            usable(attributes@),
        ensures
            manager@ == ManagerView::initial(attributes@),
            manager@.well_formed(),
    {
        let mut vibrations: Vec<u32> = Vec::new();
        let mut vibration_step_counts: Vec<u32> = Vec::new();
        let mut rotations: Vec<(u32, bool)> = Vec::new();
        let mut rotation_step_counts: Vec<u32> = Vec::new();
        let mut linears: Vec<(u32, u32)> = Vec::new();
        let mut linear_step_counts: Vec<u32> = Vec::new();
        let mut stop_commands: Vec<ButtplugDeviceCommandMessageUnion> = Vec::new();

        match attributes.get(&ButtplugDeviceMessageType::VibrateCmd) {
            Some(attr) => {
                match attr.feature_count {
                    Some(count) => {
                        vibrations = filled(0u32, count as usize);
                    },
                    None => {},
                }
                match &attr.step_count {
                    Some(steps) => {
                        vibration_step_counts = steps.clone();
                    },
                    None => {},
                }
                let mut subcommands: Vec<VibrateSubcommand> = Vec::new();
                let mut i: usize = 0;
                while i < vibrations.len()
                    invariant
                        i <= vibrations.len() <= u32::MAX,
                        subcommands@ =~= Seq::new(
                            i as nat,
                            |j: int|
                                VibrateSubcommand { index: j as u32, speed: Double::spec_zero() },
                        ),
                    decreases vibrations.len() - i,
                {
                    subcommands.push(VibrateSubcommand::new(i as u32, Double::zero()));
                    i = i + 1;
                }
                stop_commands.push(
                    ButtplugDeviceCommandMessageUnion::VibrateCmd(VibrateCmd::new(0, subcommands)),
                );
            },
            None => {},
        }
        let ghost vibrate_stops = command_views(stop_commands@);
        match attributes.get(&ButtplugDeviceMessageType::RotateCmd) {
            Some(attr) => {
                match attr.feature_count {
                    Some(count) => {
                        rotations = filled((0u32, true), count as usize);
                    },
                    None => {},
                }
                match &attr.step_count {
                    Some(steps) => {
                        rotation_step_counts = steps.clone();
                    },
                    None => {},
                }
                let mut subcommands: Vec<RotationSubcommand> = Vec::new();
                let mut i: usize = 0;
                while i < rotations.len()
                    invariant
                        i <= rotations.len() <= u32::MAX,
                        subcommands@ =~= Seq::new(
                            i as nat,
                            |j: int|
                                RotationSubcommand {
                                    index: j as u32,
                                    speed: Double::spec_zero(),
                                    clockwise: false,
                                },
                        ),
                    decreases rotations.len() - i,
                {
                    subcommands.push(RotationSubcommand::new(i as u32, Double::zero(), false));
                    i = i + 1;
                }
                stop_commands.push(
                    ButtplugDeviceCommandMessageUnion::RotateCmd(RotateCmd::new(0, subcommands)),
                );
            },
            None => {},
        }
        match attributes.get(&ButtplugDeviceMessageType::LinearCmd) {
            Some(attr) => {
                match attr.feature_count {
                    Some(count) => {
                        linears = filled((0u32, 0u32), count as usize);
                    },
                    None => {},
                }
                match &attr.step_count {
                    Some(steps) => {
                        linear_step_counts = steps.clone();
                    },
                    None => {},
                }
                let mut subcommands: Vec<VectorSubcommand> = Vec::new();
                let mut i: usize = 0;
                while i < linears.len()
                    invariant
                        i <= linears.len() <= u32::MAX,
                        subcommands@ =~= Seq::new(
                            i as nat,
                            |j: int|
                                VectorSubcommand {
                                    index: j as u32,
                                    duration: 0,
                                    position: Double::spec_zero(),
                                },
                        ),
                    decreases linears.len() - i,
                {
                    subcommands.push(VectorSubcommand::new(i as u32, 0, Double::zero()));
                    i = i + 1;
                }
                stop_commands.push(
                    ButtplugDeviceCommandMessageUnion::LinearCmd(LinearCmd::new(0, subcommands)),
                );
            },
            None => {},
        }
        proof {
            let expected = ManagerView::initial(attributes@);
            assert(vibrations@ =~= expected.vibrations);
            assert(vibration_step_counts@ =~= expected.vibration_step_counts);
            assert(rotations@ =~= expected.rotations);
            assert(rotation_step_counts@ =~= expected.rotation_step_counts);
            assert(linears@ =~= expected.linears);
            assert(linear_step_counts@ =~= expected.linear_step_counts);
            assert(command_views(stop_commands@) =~= expected.stop_commands);
        }
        GenericCommandManager {
            sent_vibration: false,
            sent_rotation: false,
            sent_linear: false,
            vibrations,
            vibration_step_counts,
            rotations,
            rotation_step_counts,
            linears,
            linear_step_counts,
            stop_commands,
        }
    }

    /// The commands that bring every feature of the device to rest, for use
    /// when the device is to be halted.
    pub fn get_stop_commands(&self) -> (commands: Vec<ButtplugDeviceCommandMessageUnion>)
        ensures
            command_views(commands@) == self@.stop_commands,
    {
        let mut commands: Vec<ButtplugDeviceCommandMessageUnion> = Vec::new();
        let mut i: usize = 0;
        while i < self.stop_commands.len()
            invariant
                i <= self.stop_commands.len(),
                command_views(commands@) =~= command_views(self.stop_commands@).take(i as int),
            decreases self.stop_commands.len() - i,
        {
            let command = self.stop_commands[i].clone();
            proof {
                let views = command_views(self.stop_commands@);
                assert(views.take(i + 1) =~= views.take(i as int).push(command@));
                assert(command_views(commands@.push(command)) =~= command_views(commands@).push(
                    command@,
                ));
            }
            commands.push(command);
            i = i + 1;
        }
        assert(command_views(commands@) =~= command_views(self.stop_commands@));
        commands
    }

    /// Takes a vibrate request and says what has to be sent.
    ///
    /// An empty request, or one that names a vibrator the device lacks, is
    /// refused with `InvalidCommand`; the entries before the first such name
    /// have been recorded by then. Otherwise the speeds are turned into steps
    /// and recorded, and the report holds the new step of each vibrator that
    /// moved. On the first request, and whenever `match_all` is set, it holds
    /// the step of every vibrator named. A later request that moves nothing
    /// reports nothing at all, with or without `match_all`.
    pub fn update_vibration(&mut self, msg: &VibrateCmd, match_all: bool) -> (r: Result<
        Option<Vec<Option<u32>>>,
        ButtplugError,
    >)
        ensures
            final(self)@ == old(self)@.after_vibration(msg.speeds@),
            match r {
                Ok(report) => old(self)@.accepts_vibration(msg.speeds@) && match report {
                    Some(slots) => old(self)@.vibration_report(msg.speeds@, match_all) == Some(
                        slots@,
                    ),
                    None => old(self)@.vibration_report(msg.speeds@, match_all) is None,
                },
                Err(e) => !old(self)@.accepts_vibration(msg.speeds@) && e.is_invalid_command(
                    request_error_text(
                        "VibrateCmd"@,
                        msg.speeds@.len(),
                        old(self)@.vibrations.len(),
                        "vibrators"@,
                    ),
                ),
            },
    {
        proof {
            use_type_invariant(&*self);
        }
        let count: usize = msg.speeds.len();
        let features: usize = self.vibrations.len();
        let ghost before = self@;
        let ghost last = self.vibrations@;
        let ghost writes = vibration_writes(self.vibration_step_counts@, msg.speeds@);
        let ghost resend = !self.sent_vibration || match_all;
        if count == 0 {
            proof {
                assert(writes.take(0) =~= writes);
                assert(self@ == before.after_vibration(msg.speeds@));
            }
            return Err(request_error("VibrateCmd", count, features, "vibrators"));
        }
        // The recorded values are taken out while the request is applied, and
        // put back on every way out.
        let mut vibrations: Vec<u32> = Vec::new();
        core::mem::swap(&mut self.vibrations, &mut vibrations);
        let mut changed_value = false;
        let mut result: Vec<Option<u32>> = filled(None, features);
        let mut k: usize = 0;
        proof {
            assert(writes.take(0).len() == 0);
            assert(result@ =~= reported(last, writes.take(0), resend));
        }
        while k < count
            invariant
                count == msg.speeds.len(),
                k <= count,
                features == last.len(),
                vibrations.len() == features,
                features <= self.vibration_step_counts.len(),
                writes == vibration_writes(self.vibration_step_counts@, msg.speeds@),
                all_in_range(writes.take(k as int), features as nat),
                vibrations@ == applied(last, writes.take(k as int)),
                result@ == reported(last, writes.take(k as int), resend),
                changed_value == (k > 0 && (!self.sent_vibration || moved(
                    last,
                    writes.take(k as int),
                ))),
                resend == (!self.sent_vibration || match_all),
                self@ == (ManagerView { vibrations: Seq::empty(), ..before }),
                before == old(self)@,
                last == before.vibrations,
            decreases count - k,
        {
            let speed_command = msg.speeds[k];
            let index = speed_command.index as usize;
            if index >= features {
                proof {
                    assert forall|j: int| 0 <= j < k implies 0 <= (#[trigger] writes[j]).0
                        < features by {
                        assert(writes.take(k as int)[j] == writes[j]);
                    }
                    lemma_in_range_prefix(writes, features as nat, k as int);
                    assert(!(msg.speeds@[k as int].index < before.vibrations.len()));
                    use_type_invariant(&*self);
                }
                self.vibrations = vibrations;
                return Err(request_error("VibrateCmd", count, features, "vibrators"));
            }
            let speed = quantize(speed_command.speed, self.vibration_step_counts[index]);
            let ghost current = vibrations@;
            proof {
                let fewer = writes.take(k as int);
                assert(writes[k as int] == (index as int, speed));
                lemma_one_more_write(last, writes, k as int);
                lemma_applied_len(last, fewer);
                if !slot_moved(last, fewer, index as int) {
                    lemma_applied_unmoved(last, fewer, index as int);
                }
                lemma_moved_is_some_slot_moved(last, fewer);
                assert forall|j: int| 0 <= j < k + 1 implies 0 <= (#[trigger] writes.take(
                    k + 1,
                )[j]).0 < features by {
                    if j < k {
                        assert(writes.take(k + 1)[j] == fewer[j]);
                    }
                }
            }
            if !self.sent_vibration || speed != vibrations[index] || match_all {
                if speed != vibrations[index] || !self.sent_vibration {
                    changed_value = true;
                }
                vibrations.set(index, speed);
                result.set(index, Some(speed));
            }
            proof {
                assert(vibrations@ =~= current.update(index as int, speed));
                assert(result@ =~= reported(last, writes.take(k + 1), resend));
            }
            k = k + 1;
        }
        proof {
            assert(writes.take(count as int) =~= writes);
            lemma_in_range_prefix(writes, features as nat, count as int);
            assert forall|j: int| 0 <= j < msg.speeds@.len() implies (
            #[trigger] msg.speeds@[j]).index < before.vibrations.len() by {
                assert(0 <= writes[j].0 < features);
            }
        }
        self.vibrations = vibrations;
        self.sent_vibration = true;
        if !changed_value {
            Ok(None)
        } else {
            Ok(Some(result))
        }
    }

    /// Takes a rotate request and says what has to be sent.
    ///
    /// An empty request, or one that names a rotator the device lacks, is
    /// refused with `InvalidCommand`; the entries before the first such name
    /// have been recorded by then. Otherwise the speeds are turned into steps
    /// and recorded with their directions, and the report holds the new step
    /// and direction of each rotator that moved; on the first request, of
    /// every rotator named.
    pub fn update_rotation(&mut self, msg: &RotateCmd) -> (r: Result<
        Vec<Option<(u32, bool)>>,
        ButtplugError,
    >)
        ensures
            final(self)@ == old(self)@.after_rotation(msg.rotations@),
            match r {
                Ok(slots) => old(self)@.accepts_rotation(msg.rotations@) && slots@ == old(
                    self,
                )@.rotation_report(msg.rotations@),
                Err(e) => !old(self)@.accepts_rotation(msg.rotations@) && e.is_invalid_command(
                    request_error_text(
                        "RotateCmd"@,
                        msg.rotations@.len(),
                        old(self)@.rotations.len(),
                        "rotators"@,
                    ),
                ),
            },
    {
        proof {
            use_type_invariant(&*self);
        }
        let count: usize = msg.rotations.len();
        let features: usize = self.rotations.len();
        let ghost before = self@;
        let ghost last = self.rotations@;
        let ghost writes = rotation_writes(self.rotation_step_counts@, msg.rotations@);
        let ghost resend = !self.sent_rotation;
        if count == 0 {
            proof {
                assert(writes.take(0) =~= writes);
                assert(self@ == before.after_rotation(msg.rotations@));
            }
            return Err(request_error("RotateCmd", count, features, "rotators"));
        }
        // The recorded values are taken out while the request is applied, and
        // put back on every way out.
        let mut rotations: Vec<(u32, bool)> = Vec::new();
        core::mem::swap(&mut self.rotations, &mut rotations);
        let mut result: Vec<Option<(u32, bool)>> = filled(None, features);
        let mut k: usize = 0;
        proof {
            assert(writes.take(0).len() == 0);
            assert(result@ =~= reported(last, writes.take(0), resend));
        }
        while k < count
            invariant
                count == msg.rotations.len(),
                k <= count,
                features == last.len(),
                rotations.len() == features,
                features <= self.rotation_step_counts.len(),
                writes == rotation_writes(self.rotation_step_counts@, msg.rotations@),
                all_in_range(writes.take(k as int), features as nat),
                rotations@ == applied(last, writes.take(k as int)),
                result@ == reported(last, writes.take(k as int), resend),
                resend == !self.sent_rotation,
                self@ == (ManagerView { rotations: Seq::empty(), ..before }),
                before == old(self)@,
                last == before.rotations,
            decreases count - k,
        {
            let rotate_command = msg.rotations[k];
            let index = rotate_command.index as usize;
            if index >= features {
                proof {
                    assert forall|j: int| 0 <= j < k implies 0 <= (#[trigger] writes[j]).0
                        < features by {
                        assert(writes.take(k as int)[j] == writes[j]);
                    }
                    lemma_in_range_prefix(writes, features as nat, k as int);
                    assert(!(msg.rotations@[k as int].index < before.rotations.len()));
                    use_type_invariant(&*self);
                }
                self.rotations = rotations;
                return Err(request_error("RotateCmd", count, features, "rotators"));
            }
            let speed = quantize(rotate_command.speed, self.rotation_step_counts[index]);
            let clockwise = rotate_command.clockwise;
            let ghost current = rotations@;
            proof {
                let fewer = writes.take(k as int);
                assert(writes[k as int] == (index as int, (speed, clockwise)));
                lemma_one_more_write(last, writes, k as int);
                lemma_applied_len(last, fewer);
                if !slot_moved(last, fewer, index as int) {
                    lemma_applied_unmoved(last, fewer, index as int);
                }
                assert forall|j: int| 0 <= j < k + 1 implies 0 <= (#[trigger] writes.take(
                    k + 1,
                )[j]).0 < features by {
                    if j < k {
                        assert(writes.take(k + 1)[j] == fewer[j]);
                    }
                }
            }
            let held = rotations[index];
            if !self.sent_rotation || speed != held.0 || clockwise != held.1 {
                rotations.set(index, (speed, clockwise));
                result.set(index, Some((speed, clockwise)));
            }
            proof {
                assert(rotations@ =~= current.update(index as int, (speed, clockwise)));
                assert(result@ =~= reported(last, writes.take(k + 1), resend));
            }
            k = k + 1;
        }
        proof {
            assert(writes.take(count as int) =~= writes);
            lemma_in_range_prefix(writes, features as nat, count as int);
            assert forall|j: int| 0 <= j < msg.rotations@.len() implies (
            #[trigger] msg.rotations@[j]).index < before.rotations.len() by {
                assert(0 <= writes[j].0 < features);
            }
        }
        self.rotations = rotations;
        self.sent_rotation = true;
        Ok(result)
    }

    /// Linear commands are not normalized yet: nothing is reported and the
    /// state stays as it is.
    pub fn _update_linear(&mut self, _msg: &LinearCmd) -> (r: Result<
        Option<Vec<(u32, u32)>>,
        ButtplugError,
    >)
        ensures
            r matches Ok(None),
            final(self)@ == old(self)@,
    {
        Ok(None)
    }
}

} // verus!
