//! What holds of the command manager across requests.
//!
//! Several statements ask that the entries of a request agree vibrator by
//! vibrator (or rotator by rotator): where two entries name the same feature,
//! they select the same step and direction. A request that names each feature
//! once meets this. One that names a feature twice with different values ends
//! on the later value, so a repeat of it moves the feature again.

use vstd::prelude::*;
use crate::dedup::{
    all_in_range, applied, consistent, in_range_prefix, lemma_all_in_range_is_full_prefix,
    lemma_applied_consistent, lemma_applied_len, lemma_repeat_moves_nothing,
    lemma_reported_value, lemma_unwritten_slot, moved, reported, slot_written,
};
use crate::generic_command_manager::{
    feature_count, kinds_present, linear_stop, rotation_stop, rotation_writes, selected_step,
    selected_turn, stop_commands_for, vibration_stop, vibration_writes, ManagerView,
};
use crate::messages::{
    ButtplugDeviceMessageType, CommandView, MessageAttributes, RotationSubcommand,
    VibrateSubcommand,
};

verus! {

/// Some entry of the request names vibrator `i`.
pub open spec fn names_vibrator(speeds: Seq<VibrateSubcommand>, i: int) -> bool {
    exists|j: int| 0 <= j < speeds.len() && (#[trigger] speeds[j]).index == i
}

/// Some entry of the request names rotator `i`.
pub open spec fn names_rotator(rotations: Seq<RotationSubcommand>, i: int) -> bool {
    exists|j: int| 0 <= j < rotations.len() && (#[trigger] rotations[j]).index == i
}

/// Some entry of the request selects for rotator `i` a step or a direction
/// other than the one last sent to it.
pub open spec fn changes_rotator(
    state: ManagerView,
    rotations: Seq<RotationSubcommand>,
    i: int,
) -> bool {
    exists|j: int|
        0 <= j < rotations.len() && (#[trigger] rotations[j]).index == i && selected_turn(
            state.rotation_step_counts,
            rotations[j],
        ) != state.rotations[i]
}

/// The writes of an accepted vibrate request are all in range, and all of
/// them are applied.
proof fn lemma_accepted_vibration(state: ManagerView, speeds: Seq<VibrateSubcommand>)
    requires
        state.accepts_vibration(speeds),
    ensures
        ({
            let writes = vibration_writes(state.vibration_step_counts, speeds);
            &&& all_in_range(writes, state.vibrations.len())
            &&& state.after_vibration(speeds).vibrations == applied(state.vibrations, writes)
            &&& state.after_vibration(speeds).vibrations.len() == state.vibrations.len()
        }),
{
    let writes = vibration_writes(state.vibration_step_counts, speeds);
    assert forall|j: int| 0 <= j < writes.len() implies 0 <= (#[trigger] writes[j]).0
        < state.vibrations.len() by {
        assert(speeds[j].index < state.vibrations.len());
    }
    lemma_all_in_range_is_full_prefix(writes, state.vibrations.len());
    assert(writes.take(writes.len() as int) =~= writes);
    lemma_applied_len(state.vibrations, writes);
}

/// The writes of an accepted rotate request are all in range, and all of
/// them are applied.
proof fn lemma_accepted_rotation(state: ManagerView, rotations: Seq<RotationSubcommand>)
    requires
        state.accepts_rotation(rotations),
    ensures
        ({
            let writes = rotation_writes(state.rotation_step_counts, rotations);
            &&& all_in_range(writes, state.rotations.len())
            &&& state.after_rotation(rotations).rotations == applied(state.rotations, writes)
            &&& state.after_rotation(rotations).rotations.len() == state.rotations.len()
        }),
{
    let writes = rotation_writes(state.rotation_step_counts, rotations);
    assert forall|j: int| 0 <= j < writes.len() implies 0 <= (#[trigger] writes[j]).0
        < state.rotations.len() by {
        assert(rotations[j].index < state.rotations.len());
    }
    lemma_all_in_range_is_full_prefix(writes, state.rotations.len());
    assert(writes.take(writes.len() as int) =~= writes);
    lemma_applied_len(state.rotations, writes);
}

/// A device has one stop command for each kind of command that its
/// descriptor has an entry for, in the order vibrate, rotate, linear, and
/// each stop command names every feature of its kind once.
pub proof fn lemma_one_stop_command_per_kind(
    attributes: Map<ButtplugDeviceMessageType, MessageAttributes>,
)
    ensures
        stop_commands_for(attributes).len() == kinds_present(attributes),
        ManagerView::initial(attributes).stop_commands == stop_commands_for(attributes),
        forall|k: int|
            0 <= k < stop_commands_for(attributes).len() ==> stops_a_kind(
                attributes,
                #[trigger] stop_commands_for(attributes)[k],
            ),
{
}

/// `command` is the stop command of a kind that the descriptor has an entry
/// for.
pub open spec fn stops_a_kind(
    attributes: Map<ButtplugDeviceMessageType, MessageAttributes>,
    command: CommandView,
) -> bool {
    match command {
        CommandView::Vibrate(_, _) => attributes.contains_key(
            ButtplugDeviceMessageType::VibrateCmd,
        ) && command == vibration_stop(
            feature_count(attributes, ButtplugDeviceMessageType::VibrateCmd),
        ),
        CommandView::Rotate(_, _) => attributes.contains_key(ButtplugDeviceMessageType::RotateCmd)
            && command == rotation_stop(
            feature_count(attributes, ButtplugDeviceMessageType::RotateCmd),
        ),
        CommandView::Linear(_, _) => attributes.contains_key(ButtplugDeviceMessageType::LinearCmd)
            && command == linear_stop(
            feature_count(attributes, ButtplugDeviceMessageType::LinearCmd),
        ),
    }
}

/// A request with an entry that names a feature the device lacks is not
/// accepted, whatever its other entries name.
pub proof fn lemma_out_of_range_is_not_accepted(
    state: ManagerView,
    speeds: Seq<VibrateSubcommand>,
    rotations: Seq<RotationSubcommand>,
    j: int,
)
    ensures
        0 <= j < speeds.len() && speeds[j].index >= state.vibrations.len()
            ==> !state.accepts_vibration(speeds),
        0 <= j < rotations.len() && rotations[j].index >= state.rotations.len()
            ==> !state.accepts_rotation(rotations),
{
}

/// Whatever the request, the manager keeps one slot per feature, its step
/// counts and its stop commands; a flag once set stays set.
pub proof fn lemma_requests_keep_shape(
    state: ManagerView,
    speeds: Seq<VibrateSubcommand>,
    rotations: Seq<RotationSubcommand>,
)
    requires
        state.well_formed(),
    ensures
        state.after_vibration(speeds).vibrations.len() == state.vibrations.len(),
        state.after_vibration(speeds).well_formed(),
        state.sent_vibration ==> state.after_vibration(speeds).sent_vibration,
        state.after_rotation(rotations).rotations.len() == state.rotations.len(),
        state.after_rotation(rotations).well_formed(),
        state.sent_rotation ==> state.after_rotation(rotations).sent_rotation,
{
    let v = vibration_writes(state.vibration_step_counts, speeds);
    lemma_all_in_range_is_full_prefix(v, state.vibrations.len());
    lemma_applied_len(state.vibrations, v.take(in_range_prefix(v, state.vibrations.len()) as int));
    let r = rotation_writes(state.rotation_step_counts, rotations);
    lemma_all_in_range_is_full_prefix(r, state.rotations.len());
    lemma_applied_len(state.rotations, r.take(in_range_prefix(r, state.rotations.len()) as int));
}

/// An accepted vibrate request issued a second time reports nothing, with or
/// without `match_all`, provided its entries agree vibrator by vibrator.
pub proof fn lemma_repeated_vibration_reports_nothing(
    state: ManagerView,
    speeds: Seq<VibrateSubcommand>,
    match_all: bool,
)
    requires
        state.accepts_vibration(speeds),
        consistent(vibration_writes(state.vibration_step_counts, speeds)),
    ensures
        state.after_vibration(speeds).accepts_vibration(speeds),
        state.after_vibration(speeds).vibration_report(speeds, match_all) is None,
{
    let writes = vibration_writes(state.vibration_step_counts, speeds);
    lemma_accepted_vibration(state, speeds);
    lemma_repeat_moves_nothing(state.vibrations, writes);
}

/// What an accepted vibrate request reports, vibrator by vibrator, provided
/// its entries agree vibrator by vibrator.
///
/// There is a report when this is the first request or some entry selects a
/// step other than the one last sent. The report then has one entry per
/// vibrator. A vibrator that the request names has its step in it if the
/// step differs from the one last sent, or this is the first request, or
/// `match_all` is set; a vibrator that the request does not name has none.
/// Afterwards every named vibrator holds the step the request selects, and
/// the others hold what they held.
pub proof fn lemma_vibration_report_per_slot(
    state: ManagerView,
    speeds: Seq<VibrateSubcommand>,
    match_all: bool,
)
    requires
        state.accepts_vibration(speeds),
        consistent(vibration_writes(state.vibration_step_counts, speeds)),
    ensures
        ({
            let report = state.vibration_report(speeds, match_all);
            let after = state.after_vibration(speeds).vibrations;
            let steps = state.vibration_step_counts;
            &&& report is Some <==> (!state.sent_vibration || exists|j: int|
                0 <= j < speeds.len() && selected_step(steps, #[trigger] speeds[j])
                    != state.vibrations[speeds[j].index as int])
            &&& report matches Some(slots) ==> {
                &&& slots.len() == state.vibrations.len()
                &&& forall|j: int|
                    0 <= j < speeds.len() ==> slots[(#[trigger] speeds[j]).index as int] == (
                    if selected_step(steps, speeds[j]) != state.vibrations[speeds[j].index as int]
                        || !state.sent_vibration || match_all {
                        Some(selected_step(steps, speeds[j]))
                    } else {
                        None
                    })
                &&& forall|i: int|
                    0 <= i < slots.len() && !names_vibrator(speeds, i) ==> #[trigger] slots[i]
                        == None::<u32>
            }
            &&& forall|j: int|
                0 <= j < speeds.len() ==> after[(#[trigger] speeds[j]).index as int]
                    == selected_step(steps, speeds[j])
            &&& forall|i: int|
                0 <= i < after.len() && !names_vibrator(speeds, i) ==> #[trigger] after[i]
                    == state.vibrations[i]
        }),
{
    let writes = vibration_writes(state.vibration_step_counts, speeds);
    let last = state.vibrations;
    let steps = state.vibration_step_counts;
    let resend = !state.sent_vibration || match_all;
    lemma_accepted_vibration(state, speeds);
    if moved(last, writes) {
        let j = choose|j: int|
            0 <= j < writes.len() && (#[trigger] writes[j]).1 != last[writes[j].0];
        assert(selected_step(steps, speeds[j]) != last[speeds[j].index as int]);
    }
    if exists|j: int|
        0 <= j < speeds.len() && selected_step(steps, #[trigger] speeds[j])
            != last[speeds[j].index as int] {
        let j = choose|j: int|
            0 <= j < speeds.len() && selected_step(steps, #[trigger] speeds[j])
                != last[speeds[j].index as int];
        assert(writes[j].1 != last[writes[j].0]);
    }
    assert forall|j: int| 0 <= j < speeds.len() implies reported(last, writes, resend)[(
    #[trigger] speeds[j]).index as int] == (if selected_step(steps, speeds[j])
        != last[speeds[j].index as int] || resend {
        Some(selected_step(steps, speeds[j]))
    } else {
        None
    }) && applied(last, writes)[speeds[j].index as int] == selected_step(steps, speeds[j]) by {
        assert(writes[j] == (speeds[j].index as int, selected_step(steps, speeds[j])));
        lemma_reported_value(last, writes, resend, j);
        lemma_applied_consistent(last, writes, j);
    }
    assert forall|i: int| 0 <= i < last.len() && !names_vibrator(speeds, i) implies (
    #[trigger] reported(last, writes, resend)[i]) == None::<u32> by {
        if slot_written(writes, i) {
            let j = choose|j: int| 0 <= j < writes.len() && (#[trigger] writes[j]).0 == i;
            assert(speeds[j].index == i);
        }
        lemma_unwritten_slot(last, writes, resend, i);
    }
    assert forall|i: int| 0 <= i < last.len() && !names_vibrator(speeds, i) implies (
    #[trigger] applied(last, writes)[i]) == last[i] by {
        if slot_written(writes, i) {
            let j = choose|j: int| 0 <= j < writes.len() && (#[trigger] writes[j]).0 == i;
            assert(speeds[j].index == i);
        }
        lemma_unwritten_slot(last, writes, resend, i);
    }
}

/// The first accepted vibrate request of a session reports the step of every
/// vibrator it names, provided its entries agree vibrator by vibrator.
pub proof fn lemma_first_vibration_reports_every_request(
    state: ManagerView,
    speeds: Seq<VibrateSubcommand>,
    match_all: bool,
)
    requires
        !state.sent_vibration,
        state.accepts_vibration(speeds),
        consistent(vibration_writes(state.vibration_step_counts, speeds)),
    ensures
        state.vibration_report(speeds, match_all) matches Some(slots) && forall|j: int|
            0 <= j < speeds.len() ==> slots[(#[trigger] speeds[j]).index as int] == Some(
                selected_step(state.vibration_step_counts, speeds[j]),
            ),
{
    lemma_vibration_report_per_slot(state, speeds, match_all);
}

/// What an accepted rotate request reports, rotator by rotator, provided its
/// entries agree rotator by rotator.
///
/// The report has one entry per rotator. A rotator that the request names
/// has its step and direction in it if either differs from what was last
/// sent, or this is the first request; a rotator that the request does not
/// name has none. So a request that changes one rotator of several reports
/// that rotator alone. Afterwards every named rotator holds what the request
/// selects, and the others hold what they held.
pub proof fn lemma_rotation_report_per_slot(state: ManagerView, rotations: Seq<RotationSubcommand>)
    requires
        state.accepts_rotation(rotations),
        consistent(rotation_writes(state.rotation_step_counts, rotations)),
    ensures
        ({
            let slots = state.rotation_report(rotations);
            let after = state.after_rotation(rotations).rotations;
            let steps = state.rotation_step_counts;
            &&& slots.len() == state.rotations.len()
            &&& forall|j: int|
                0 <= j < rotations.len() ==> slots[(#[trigger] rotations[j]).index as int] == (
                if selected_turn(steps, rotations[j]) != state.rotations[rotations[j].index as int]
                    || !state.sent_rotation {
                    Some(selected_turn(steps, rotations[j]))
                } else {
                    None
                })
            &&& forall|i: int|
                0 <= i < slots.len() && !names_rotator(rotations, i) ==> #[trigger] slots[i]
                    == None::<(u32, bool)>
            &&& forall|j: int|
                0 <= j < rotations.len() ==> after[(#[trigger] rotations[j]).index as int]
                    == selected_turn(steps, rotations[j])
            &&& forall|i: int|
                0 <= i < after.len() && !names_rotator(rotations, i) ==> #[trigger] after[i]
                    == state.rotations[i]
        }),
{
    let writes = rotation_writes(state.rotation_step_counts, rotations);
    let last = state.rotations;
    let steps = state.rotation_step_counts;
    let resend = !state.sent_rotation;
    lemma_accepted_rotation(state, rotations);
    assert forall|j: int| 0 <= j < rotations.len() implies reported(last, writes, resend)[(
    #[trigger] rotations[j]).index as int] == (if selected_turn(steps, rotations[j])
        != last[rotations[j].index as int] || resend {
        Some(selected_turn(steps, rotations[j]))
    } else {
        None
    }) && applied(last, writes)[rotations[j].index as int] == selected_turn(
        steps,
        rotations[j],
    ) by {
        assert(writes[j] == (rotations[j].index as int, selected_turn(steps, rotations[j])));
        lemma_reported_value(last, writes, resend, j);
        lemma_applied_consistent(last, writes, j);
    }
    assert forall|i: int| 0 <= i < last.len() && !names_rotator(rotations, i) implies (
    #[trigger] reported(last, writes, resend)[i]) == None::<(u32, bool)> by {
        if slot_written(writes, i) {
            let j = choose|j: int| 0 <= j < writes.len() && (#[trigger] writes[j]).0 == i;
            assert(rotations[j].index == i);
        }
        lemma_unwritten_slot(last, writes, resend, i);
    }
    assert forall|i: int| 0 <= i < last.len() && !names_rotator(rotations, i) implies (
    #[trigger] applied(last, writes)[i]) == last[i] by {
        if slot_written(writes, i) {
            let j = choose|j: int| 0 <= j < writes.len() && (#[trigger] writes[j]).0 == i;
            assert(rotations[j].index == i);
        }
        lemma_unwritten_slot(last, writes, resend, i);
    }
}

/// Once rotation has been sent, an accepted rotate request reports exactly
/// the rotators it moves: a rotator has an entry in the report if and only if
/// the request selects for it a step or a direction other than the one last
/// sent. Changing one rotator of several reports that rotator alone.
pub proof fn lemma_rotation_reports_only_what_changed(
    state: ManagerView,
    rotations: Seq<RotationSubcommand>,
)
    requires
        state.sent_rotation,
        state.accepts_rotation(rotations),
        consistent(rotation_writes(state.rotation_step_counts, rotations)),
    ensures
        state.rotation_report(rotations).len() == state.rotations.len(),
        forall|i: int|
            0 <= i < state.rotations.len() ==> (#[trigger] state.rotation_report(rotations)[i]
                is Some <==> changes_rotator(state, rotations, i)),
{
    let slots = state.rotation_report(rotations);
    lemma_rotation_report_per_slot(state, rotations);
    assert forall|i: int| 0 <= i < state.rotations.len() implies (#[trigger] slots[i] is Some
        <==> changes_rotator(state, rotations, i)) by {
        if names_rotator(rotations, i) {
            let j = choose|j: int| 0 <= j < rotations.len() && (#[trigger] rotations[j]).index == i;
            assert(slots[rotations[j].index as int] is Some <==> selected_turn(
                state.rotation_step_counts,
                rotations[j],
            ) != state.rotations[i]);
            if changes_rotator(state, rotations, i) {
                let k = choose|k: int|
                    0 <= k < rotations.len() && (#[trigger] rotations[k]).index == i
                        && selected_turn(state.rotation_step_counts, rotations[k])
                        != state.rotations[i];
                let writes = rotation_writes(state.rotation_step_counts, rotations);
                assert(writes[j].0 == writes[k].0);
            }
        }
    }
}

/// An accepted rotate request issued a second time reports no rotator,
/// provided its entries agree rotator by rotator.
pub proof fn lemma_repeated_rotation_reports_nothing(
    state: ManagerView,
    rotations: Seq<RotationSubcommand>,
)
    requires
        state.accepts_rotation(rotations),
        consistent(rotation_writes(state.rotation_step_counts, rotations)),
    ensures
        state.after_rotation(rotations).accepts_rotation(rotations),
        forall|i: int|
            0 <= i < state.rotations.len() ==> #[trigger] state.after_rotation(
                rotations,
            ).rotation_report(rotations)[i] == None::<(u32, bool)>,
{
    let after = state.after_rotation(rotations);
    lemma_accepted_rotation(state, rotations);
    lemma_rotation_report_per_slot(state, rotations);
    lemma_rotation_report_per_slot(after, rotations);
    let slots = after.rotation_report(rotations);
    assert forall|i: int| 0 <= i < state.rotations.len() implies #[trigger] slots[i] == None::<
        (u32, bool),
    > by {
        if names_rotator(rotations, i) {
            let j = choose|j: int| 0 <= j < rotations.len() && (#[trigger] rotations[j]).index == i;
            assert(slots[rotations[j].index as int] == None::<(u32, bool)>);
        }
    }
}

} // verus!
