use buttplug::double::Double;
use buttplug::errors::{ButtplugDeviceError, ButtplugError};
use buttplug::generic_command_manager::GenericCommandManager;
use buttplug::messages::{
    ButtplugDeviceCommandMessageUnion, ButtplugDeviceMessageType, LinearCmd, MessageAttributes,
    MessageAttributesMap, RotateCmd, RotationSubcommand, VectorSubcommand, VibrateCmd,
    VibrateSubcommand,
};

fn fraction(value: f64) -> Double {
    Double::from_bits(value.to_bits())
}

fn device(kind: ButtplugDeviceMessageType, features: u32, steps: Vec<u32>) -> GenericCommandManager {
    let mut attributes_map = MessageAttributesMap::new();
    let mut attributes = MessageAttributes::default();
    attributes.feature_count = Some(features);
    attributes.step_count = Some(steps);
    attributes_map.insert(kind, attributes);
    assert!(GenericCommandManager::accepts(&attributes_map));
    GenericCommandManager::new(&attributes_map)
}

fn invalid(text: &str) -> ButtplugError {
    ButtplugError::ButtplugDeviceError(ButtplugDeviceError::InvalidCommand(text.to_string()))
}

#[test]
pub fn test_command_generator_vibration() {
    let mut attributes_map = MessageAttributesMap::new();

    let mut vibrate_attributes = MessageAttributes::default();
    vibrate_attributes.feature_count = Some(2);
    vibrate_attributes.step_count = Some(vec![20, 20]);
    attributes_map.insert(ButtplugDeviceMessageType::VibrateCmd, vibrate_attributes);
    let mut mgr = GenericCommandManager::new(&attributes_map);
    let vibrate_msg = VibrateCmd::new(
        0,
        vec![
            VibrateSubcommand::new(0, fraction(0.5)),
            VibrateSubcommand::new(1, fraction(0.5)),
        ],
    );
    assert_eq!(
        mgr.update_vibration(&vibrate_msg, false).unwrap(),
        Some(vec![Some(10), Some(10)])
    );
    assert_eq!(mgr.update_vibration(&vibrate_msg, false).unwrap(), None);
    let vibrate_msg_2 = VibrateCmd::new(
        0,
        vec![
            VibrateSubcommand::new(0, fraction(0.5)),
            VibrateSubcommand::new(1, fraction(0.75)),
        ],
    );
    assert_eq!(
        mgr.update_vibration(&vibrate_msg_2, false).unwrap(),
        Some(vec![None, Some(15)])
    );
    let vibrate_msg_invalid = VibrateCmd::new(0, vec![VibrateSubcommand::new(2, fraction(0.5))]);
    assert!(mgr.update_vibration(&vibrate_msg_invalid, false).is_err());
}

#[test]
pub fn test_command_generator_rotation() {
    let mut attributes_map = MessageAttributesMap::new();

    let mut rotate_attributes = MessageAttributes::default();
    rotate_attributes.feature_count = Some(2);
    rotate_attributes.step_count = Some(vec![20, 20]);
    attributes_map.insert(ButtplugDeviceMessageType::RotateCmd, rotate_attributes);
    let mut mgr = GenericCommandManager::new(&attributes_map);
    let rotate_msg = RotateCmd::new(
        0,
        vec![
            RotationSubcommand::new(0, fraction(0.5), true),
            RotationSubcommand::new(1, fraction(0.5), true),
        ],
    );
    assert_eq!(
        mgr.update_rotation(&rotate_msg).unwrap(),
        vec![Some((10, true)), Some((10, true))]
    );
    assert_eq!(mgr.update_rotation(&rotate_msg).unwrap(), vec![None, None]);
    let rotate_msg_2 = RotateCmd::new(
        0,
        vec![
            RotationSubcommand::new(0, fraction(0.5), true),
            RotationSubcommand::new(1, fraction(0.75), false),
        ],
    );
    assert_eq!(
        mgr.update_rotation(&rotate_msg_2).unwrap(),
        vec![None, Some((15, false))]
    );
    let rotate_msg_invalid =
        RotateCmd::new(0, vec![RotationSubcommand::new(2, fraction(0.5), true)]);
    assert!(mgr.update_rotation(&rotate_msg_invalid).is_err());
}

#[test]
fn empty_vibrate_request_is_invalid() {
    let mut mgr = device(ButtplugDeviceMessageType::VibrateCmd, 2, vec![20, 20]);
    let empty = VibrateCmd::new(0, vec![]);
    assert_eq!(
        mgr.update_vibration(&empty, false),
        Err(invalid("VibrateCmd has 0 commands, will not do anything."))
    );
    assert_eq!(
        mgr.update_vibration(&empty, true),
        Err(invalid("VibrateCmd has 0 commands, will not do anything."))
    );
}

#[test]
fn empty_rotate_request_is_invalid() {
    let mut mgr = device(ButtplugDeviceMessageType::RotateCmd, 2, vec![20, 20]);
    let empty = RotateCmd::new(0, vec![]);
    assert_eq!(
        mgr.update_rotation(&empty),
        Err(invalid("RotateCmd has 0 commands, will not do anything."))
    );
}

#[test]
fn out_of_range_vibrator_reports_both_counts() {
    let mut mgr = device(ButtplugDeviceMessageType::VibrateCmd, 2, vec![20, 20]);
    let one = VibrateCmd::new(0, vec![VibrateSubcommand::new(2, fraction(0.5))]);
    assert_eq!(
        mgr.update_vibration(&one, false),
        Err(invalid("VibrateCmd has 1 commands, device has 2 vibrators."))
    );
    let three = VibrateCmd::new(
        0,
        vec![
            VibrateSubcommand::new(0, fraction(0.5)),
            VibrateSubcommand::new(1, fraction(0.5)),
            VibrateSubcommand::new(u32::MAX, fraction(0.5)),
        ],
    );
    assert_eq!(
        mgr.update_vibration(&three, true),
        Err(invalid("VibrateCmd has 3 commands, device has 2 vibrators."))
    );
}

#[test]
fn out_of_range_rotator_reports_both_counts() {
    let mut mgr = device(ButtplugDeviceMessageType::RotateCmd, 12, vec![5; 12]);
    let request = RotateCmd::new(
        0,
        vec![
            RotationSubcommand::new(11, fraction(0.5), true),
            RotationSubcommand::new(12, fraction(0.5), true),
        ],
    );
    assert_eq!(
        mgr.update_rotation(&request),
        Err(invalid("RotateCmd has 2 commands, device has 12 rotators."))
    );
}

#[test]
fn out_of_range_index_fails_wherever_it_stands() {
    for position in 0..3 {
        let mut mgr = device(ButtplugDeviceMessageType::VibrateCmd, 2, vec![20, 20]);
        let mut speeds = vec![
            VibrateSubcommand::new(0, fraction(0.5)),
            VibrateSubcommand::new(1, fraction(0.5)),
        ];
        speeds.insert(position, VibrateSubcommand::new(7, fraction(0.5)));
        assert!(mgr.update_vibration(&VibrateCmd::new(0, speeds), false).is_err());
    }
}

#[test]
fn device_without_vibrators_refuses_every_vibrate_request() {
    let mut mgr = GenericCommandManager::new(&MessageAttributesMap::new());
    let request = VibrateCmd::new(0, vec![VibrateSubcommand::new(0, fraction(0.5))]);
    assert_eq!(
        mgr.update_vibration(&request, false),
        Err(invalid("VibrateCmd has 1 commands, device has 0 vibrators."))
    );
    let request = RotateCmd::new(0, vec![RotationSubcommand::new(0, fraction(0.5), false)]);
    assert_eq!(
        mgr.update_rotation(&request),
        Err(invalid("RotateCmd has 1 commands, device has 0 rotators."))
    );
    assert!(mgr.get_stop_commands().is_empty());
}

#[test]
fn entries_before_a_bad_index_are_recorded_but_nothing_counts_as_sent() {
    let mut mgr = device(ButtplugDeviceMessageType::VibrateCmd, 2, vec![20, 20]);
    let bad = VibrateCmd::new(
        0,
        vec![
            VibrateSubcommand::new(0, fraction(0.5)),
            VibrateSubcommand::new(5, fraction(0.5)),
        ],
    );
    assert!(mgr.update_vibration(&bad, false).is_err());
    // Still the first accepted request: the named vibrator is reported
    // although its step is already recorded.
    let good = VibrateCmd::new(0, vec![VibrateSubcommand::new(0, fraction(0.5))]);
    assert_eq!(
        mgr.update_vibration(&good, false).unwrap(),
        Some(vec![Some(10), None])
    );
    assert_eq!(mgr.update_vibration(&good, false).unwrap(), None);

    // With vibration sent, a failed request still records what came before
    // the bad index, so the same value afterwards is no change.
    let bad = VibrateCmd::new(
        0,
        vec![
            VibrateSubcommand::new(1, fraction(0.25)),
            VibrateSubcommand::new(2, fraction(0.5)),
        ],
    );
    assert!(mgr.update_vibration(&bad, false).is_err());
    let same = VibrateCmd::new(0, vec![VibrateSubcommand::new(1, fraction(0.25))]);
    assert_eq!(mgr.update_vibration(&same, false).unwrap(), None);
}

#[test]
fn first_request_reports_zero_steps_too() {
    let mut mgr = device(ButtplugDeviceMessageType::VibrateCmd, 3, vec![20, 20, 20]);
    let request = VibrateCmd::new(0, vec![VibrateSubcommand::new(1, fraction(0.0))]);
    assert_eq!(
        mgr.update_vibration(&request, false).unwrap(),
        Some(vec![None, Some(0), None])
    );
    assert_eq!(mgr.update_vibration(&request, false).unwrap(), None);
}

#[test]
fn match_all_resends_every_named_vibrator_when_one_moves() {
    let mut mgr = device(ButtplugDeviceMessageType::VibrateCmd, 3, vec![20, 20, 10]);
    let first = VibrateCmd::new(
        0,
        vec![
            VibrateSubcommand::new(0, fraction(0.5)),
            VibrateSubcommand::new(1, fraction(0.5)),
        ],
    );
    assert_eq!(
        mgr.update_vibration(&first, true).unwrap(),
        Some(vec![Some(10), Some(10), None])
    );
    // Nothing moved: nothing is reported, match_all or not.
    assert_eq!(mgr.update_vibration(&first, true).unwrap(), None);
    let second = VibrateCmd::new(
        0,
        vec![
            VibrateSubcommand::new(0, fraction(0.5)),
            VibrateSubcommand::new(1, fraction(0.75)),
        ],
    );
    assert_eq!(
        mgr.update_vibration(&second, true).unwrap(),
        Some(vec![Some(10), Some(15), None])
    );
    let third = VibrateCmd::new(0, vec![VibrateSubcommand::new(2, fraction(1.0))]);
    assert_eq!(
        mgr.update_vibration(&third, false).unwrap(),
        Some(vec![None, None, Some(10)])
    );
}

#[test]
fn each_vibrator_uses_its_own_step_count() {
    let mut mgr = device(ButtplugDeviceMessageType::VibrateCmd, 3, vec![10, 100, 255]);
    let request = VibrateCmd::new(
        0,
        vec![
            VibrateSubcommand::new(2, fraction(0.5)),
            VibrateSubcommand::new(0, fraction(0.5)),
            VibrateSubcommand::new(1, fraction(0.5)),
        ],
    );
    assert_eq!(
        mgr.update_vibration(&request, false).unwrap(),
        Some(vec![Some(5), Some(50), Some(127)])
    );
}

#[test]
fn a_vibrator_named_twice_ends_on_the_later_value() {
    let mut mgr = device(ButtplugDeviceMessageType::VibrateCmd, 1, vec![20]);
    let request = VibrateCmd::new(
        0,
        vec![
            VibrateSubcommand::new(0, fraction(0.5)),
            VibrateSubcommand::new(0, fraction(0.75)),
        ],
    );
    assert_eq!(mgr.update_vibration(&request, false).unwrap(), Some(vec![Some(15)]));
    // The repeat moves the vibrator to 10 and back to 15.
    assert_eq!(mgr.update_vibration(&request, false).unwrap(), Some(vec![Some(15)]));
}

#[test]
fn rotation_reports_only_the_rotator_that_changed() {
    let mut mgr = device(ButtplugDeviceMessageType::RotateCmd, 3, vec![20, 20, 20]);
    let all = RotateCmd::new(
        0,
        vec![
            RotationSubcommand::new(0, fraction(0.5), true),
            RotationSubcommand::new(1, fraction(0.5), true),
            RotationSubcommand::new(2, fraction(0.5), true),
        ],
    );
    assert_eq!(
        mgr.update_rotation(&all).unwrap(),
        vec![Some((10, true)), Some((10, true)), Some((10, true))]
    );
    // Only the direction of the middle one changes.
    let turned = RotateCmd::new(
        0,
        vec![
            RotationSubcommand::new(0, fraction(0.5), true),
            RotationSubcommand::new(1, fraction(0.5), false),
            RotationSubcommand::new(2, fraction(0.5), true),
        ],
    );
    assert_eq!(
        mgr.update_rotation(&turned).unwrap(),
        vec![None, Some((10, false)), None]
    );
    // Only the speed of the last one changes.
    let faster = RotateCmd::new(0, vec![RotationSubcommand::new(2, fraction(1.0), true)]);
    assert_eq!(
        mgr.update_rotation(&faster).unwrap(),
        vec![None, None, Some((20, true))]
    );
}

#[test]
fn first_rotation_reports_the_resting_state_too() {
    let mut mgr = device(ButtplugDeviceMessageType::RotateCmd, 2, vec![20, 20]);
    let request = RotateCmd::new(0, vec![RotationSubcommand::new(1, fraction(0.0), true)]);
    assert_eq!(
        mgr.update_rotation(&request).unwrap(),
        vec![None, Some((0, true))]
    );
    assert_eq!(mgr.update_rotation(&request).unwrap(), vec![None, None]);
}

#[test]
fn vibration_and_rotation_are_tracked_apart() {
    let mut attributes_map = MessageAttributesMap::new();
    let mut vibrate = MessageAttributes::default();
    vibrate.feature_count = Some(1);
    vibrate.step_count = Some(vec![20]);
    let mut rotate = MessageAttributes::default();
    rotate.feature_count = Some(1);
    rotate.step_count = Some(vec![10]);
    assert!(attributes_map
        .insert(ButtplugDeviceMessageType::VibrateCmd, vibrate)
        .is_none());
    assert!(attributes_map
        .insert(ButtplugDeviceMessageType::RotateCmd, rotate)
        .is_none());
    let mut mgr = GenericCommandManager::new(&attributes_map);
    let v = VibrateCmd::new(0, vec![VibrateSubcommand::new(0, fraction(0.5))]);
    let r = RotateCmd::new(0, vec![RotationSubcommand::new(0, fraction(0.5), true)]);
    assert_eq!(mgr.update_vibration(&v, false).unwrap(), Some(vec![Some(10)]));
    assert_eq!(mgr.update_rotation(&r).unwrap(), vec![Some((5, true))]);
    assert_eq!(mgr.update_vibration(&v, false).unwrap(), None);
    assert_eq!(mgr.update_rotation(&r).unwrap(), vec![None]);
}

#[test]
fn stop_commands_bring_every_feature_to_rest() {
    let mut attributes_map = MessageAttributesMap::new();
    let mut vibrate = MessageAttributes::default();
    vibrate.feature_count = Some(2);
    vibrate.step_count = Some(vec![20, 20]);
    let mut rotate = MessageAttributes::default();
    rotate.feature_count = Some(1);
    rotate.step_count = Some(vec![10]);
    let mut linear = MessageAttributes::default();
    linear.feature_count = Some(1);
    linear.step_count = Some(vec![100]);
    attributes_map.insert(ButtplugDeviceMessageType::RotateCmd, rotate);
    attributes_map.insert(ButtplugDeviceMessageType::LinearCmd, linear);
    attributes_map.insert(ButtplugDeviceMessageType::VibrateCmd, vibrate);
    let mut mgr = GenericCommandManager::new(&attributes_map);
    for _ in 0..2 {
        let commands = mgr.get_stop_commands();
        assert_eq!(commands.len(), 3);
        match &commands[0] {
            ButtplugDeviceCommandMessageUnion::VibrateCmd(c) => {
                assert_eq!(c.device_index, 0);
                assert_eq!(c.speeds.len(), 2);
                for (i, s) in c.speeds.iter().enumerate() {
                    assert_eq!(s.index as usize, i);
                    assert_eq!(s.speed.to_bits(), 0.0f64.to_bits());
                }
            }
            other => panic!("not a vibrate command: {:?}", other),
        }
        match &commands[1] {
            ButtplugDeviceCommandMessageUnion::RotateCmd(c) => {
                assert_eq!(c.device_index, 0);
                assert_eq!(c.rotations.len(), 1);
                assert_eq!(c.rotations[0].index, 0);
                assert_eq!(c.rotations[0].speed.to_bits(), 0.0f64.to_bits());
                assert!(!c.rotations[0].clockwise);
            }
            other => panic!("not a rotate command: {:?}", other),
        }
        match &commands[2] {
            ButtplugDeviceCommandMessageUnion::LinearCmd(c) => {
                assert_eq!(c.device_index, 0);
                assert_eq!(c.vectors.len(), 1);
                assert_eq!(c.vectors[0].index, 0);
                assert_eq!(c.vectors[0].duration, 0);
                assert_eq!(c.vectors[0].position.to_bits(), 0.0f64.to_bits());
            }
            other => panic!("not a linear command: {:?}", other),
        }
        // Requests do not change the stop commands.
        let v = VibrateCmd::new(0, vec![VibrateSubcommand::new(0, fraction(0.5))]);
        mgr.update_vibration(&v, false).unwrap();
    }
}

#[test]
fn stop_command_of_a_kind_without_feature_count_is_empty() {
    let mut attributes_map = MessageAttributesMap::new();
    attributes_map.insert(
        ButtplugDeviceMessageType::VibrateCmd,
        MessageAttributes::default(),
    );
    let mgr = GenericCommandManager::new(&attributes_map);
    let commands = mgr.get_stop_commands();
    assert_eq!(commands.len(), 1);
    match &commands[0] {
        ButtplugDeviceCommandMessageUnion::VibrateCmd(c) => assert!(c.speeds.is_empty()),
        other => panic!("not a vibrate command: {:?}", other),
    }
}

#[test]
fn linear_requests_report_nothing() {
    let mut mgr = device(ButtplugDeviceMessageType::LinearCmd, 1, vec![100]);
    let request = LinearCmd::new(0, vec![VectorSubcommand::new(0, 500, fraction(0.5))]);
    assert_eq!(mgr._update_linear(&request), Ok(None));
    assert_eq!(mgr._update_linear(&request), Ok(None));
}

#[test]
fn one_stop_command_for_each_kind_present() {
    let kinds = [
        ButtplugDeviceMessageType::VibrateCmd,
        ButtplugDeviceMessageType::RotateCmd,
        ButtplugDeviceMessageType::LinearCmd,
    ];
    for present in 0..8u32 {
        let mut attributes_map = MessageAttributesMap::new();
        // Inserted last kind first: the order of the stop commands does not
        // follow the order of insertion.
        for (bit, kind) in kinds.iter().enumerate().rev() {
            if present & (1 << bit) != 0 {
                let mut attributes = MessageAttributes::default();
                attributes.feature_count = Some(bit as u32 + 1);
                attributes.step_count = Some(vec![20; bit + 1]);
                attributes_map.insert(*kind, attributes);
            }
        }
        let mgr = GenericCommandManager::new(&attributes_map);
        let commands = mgr.get_stop_commands();
        assert_eq!(commands.len() as u32, present.count_ones());
        let mut next = 0;
        if present & 1 != 0 {
            match &commands[next] {
                ButtplugDeviceCommandMessageUnion::VibrateCmd(c) => assert_eq!(c.speeds.len(), 1),
                other => panic!("not a vibrate command: {:?}", other),
            }
            next += 1;
        }
        if present & 2 != 0 {
            match &commands[next] {
                ButtplugDeviceCommandMessageUnion::RotateCmd(c) => {
                    assert_eq!(c.rotations.len(), 2)
                }
                other => panic!("not a rotate command: {:?}", other),
            }
            next += 1;
        }
        if present & 4 != 0 {
            match &commands[next] {
                ButtplugDeviceCommandMessageUnion::LinearCmd(c) => {
                    assert_eq!(c.vectors.len(), 3);
                    for (i, v) in c.vectors.iter().enumerate() {
                        assert_eq!(v.index as usize, i);
                        assert_eq!(v.duration, 0);
                        assert_eq!(v.position.to_bits(), 0.0f64.to_bits());
                    }
                }
                other => panic!("not a linear command: {:?}", other),
            }
        }
    }
}

#[test]
fn descriptor_without_step_counts_is_not_accepted() {
    let mut attributes_map = MessageAttributesMap::new();
    let mut vibrate = MessageAttributes::default();
    vibrate.feature_count = Some(2);
    assert!(!vibrate.has_step_counts());
    attributes_map.insert(ButtplugDeviceMessageType::VibrateCmd, vibrate);
    assert!(!GenericCommandManager::accepts(&attributes_map));

    let mut short = MessageAttributes::default();
    short.feature_count = Some(2);
    short.step_count = Some(vec![20]);
    assert!(!short.has_step_counts());
    let previous = attributes_map.insert(ButtplugDeviceMessageType::VibrateCmd, short);
    assert_eq!(previous.unwrap().feature_count, Some(2));
    assert!(!GenericCommandManager::accepts(&attributes_map));

    let mut exact = MessageAttributes::default();
    exact.feature_count = Some(2);
    exact.step_count = Some(vec![20, 20]);
    attributes_map.insert(ButtplugDeviceMessageType::VibrateCmd, exact);
    assert!(GenericCommandManager::accepts(&attributes_map));

    // Linear features are not normalized, so they need no step counts.
    let mut linear = MessageAttributes::default();
    linear.feature_count = Some(2);
    attributes_map.insert(ButtplugDeviceMessageType::LinearCmd, linear);
    assert!(GenericCommandManager::accepts(&attributes_map));
    assert!(attributes_map.get(&ButtplugDeviceMessageType::RotateCmd).is_none());
    assert_eq!(
        attributes_map
            .get(&ButtplugDeviceMessageType::LinearCmd)
            .unwrap()
            .feature_count,
        Some(2)
    );
}

#[test]
fn error_text_is_the_same_in_every_variant() {
    let e = ButtplugDeviceError::InvalidCommand("a".to_string());
    assert_eq!(e.message(), "a");
    let e = ButtplugDeviceError::UnhandledCommand("b".to_string());
    assert_eq!(e.message(), "b");
    let e = ButtplugDeviceError::DeviceCommunicationError("c".to_string());
    assert_eq!(e.message(), "c");
    assert_eq!(
        ButtplugError::from(ButtplugDeviceError::InvalidCommand("a".to_string())),
        invalid("a")
    );
}
