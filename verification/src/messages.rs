//! Device commands, and the capability descriptor that says what a device
//! can do.

use vstd::prelude::*;
use crate::double::Double;

verus! {

/// One vibrator's share of a vibrate command.
#[derive(Clone, Copy, Debug)]
pub struct VibrateSubcommand {
    /// Which vibrator of the device.
    pub index: u32,
    /// Intensity, as a fraction of full speed.
    pub speed: Double,
}

impl VibrateSubcommand {
    pub fn new(index: u32, speed: Double) -> (c: VibrateSubcommand)
        ensures
            c == (VibrateSubcommand { index, speed }),
    {
        VibrateSubcommand { index, speed }
    }
}

/// One rotator's share of a rotate command.
#[derive(Clone, Copy, Debug)]
pub struct RotationSubcommand {
    /// Which rotator of the device.
    pub index: u32,
    /// Speed, as a fraction of full speed.
    pub speed: Double,
    /// Direction of rotation.
    pub clockwise: bool,
}

impl RotationSubcommand {
    pub fn new(index: u32, speed: Double, clockwise: bool) -> (c: RotationSubcommand)
        ensures
            c == (RotationSubcommand { index, speed, clockwise }),
    {
        RotationSubcommand { index, speed, clockwise }
    }
}

/// One linear actuator's share of a linear command.
#[derive(Clone, Copy, Debug)]
pub struct VectorSubcommand {
    /// Which actuator of the device.
    pub index: u32,
    /// Time to reach the position, in milliseconds.
    pub duration: u32,
    /// Target position, as a fraction of the full stroke.
    pub position: Double,
}

impl VectorSubcommand {
    pub fn new(index: u32, duration: u32, position: Double) -> (c: VectorSubcommand)
        ensures
            c == (VectorSubcommand { index, duration, position }),
    {
        VectorSubcommand { index, duration, position }
    }
}

/// A request to set vibration speeds.
#[derive(Debug)]
pub struct VibrateCmd {
    pub device_index: u32,
    pub speeds: Vec<VibrateSubcommand>,
}

impl View for VibrateCmd {
    type V = (u32, Seq<VibrateSubcommand>);

    open spec fn view(&self) -> (u32, Seq<VibrateSubcommand>) {
        (self.device_index, self.speeds@)
    }
}

impl VibrateCmd {
    pub fn new(device_index: u32, speeds: Vec<VibrateSubcommand>) -> (c: VibrateCmd)
        ensures
            c@ == (device_index, speeds@),
    {
        VibrateCmd { device_index, speeds }
    }
}

impl Clone for VibrateCmd {
    fn clone(&self) -> (c: VibrateCmd)
        ensures
            c@ == self@,
    {
        let speeds = self.speeds.clone();
        assert(speeds@ =~= self.speeds@);
        VibrateCmd { device_index: self.device_index, speeds }
    }
}

/// A request to set rotation speeds and directions.
#[derive(Debug)]
pub struct RotateCmd {
    pub device_index: u32,
    pub rotations: Vec<RotationSubcommand>,
}

impl View for RotateCmd {
    type V = (u32, Seq<RotationSubcommand>);

    open spec fn view(&self) -> (u32, Seq<RotationSubcommand>) {
        (self.device_index, self.rotations@)
    }
}

impl RotateCmd {
    pub fn new(device_index: u32, rotations: Vec<RotationSubcommand>) -> (c: RotateCmd)
        ensures
            c@ == (device_index, rotations@),
    {
        RotateCmd { device_index, rotations }
    }
}

impl Clone for RotateCmd {
    fn clone(&self) -> (c: RotateCmd)
        ensures
            c@ == self@,
    {
        let rotations = self.rotations.clone();
        assert(rotations@ =~= self.rotations@);
        RotateCmd { device_index: self.device_index, rotations }
    }
}

/// A request to move linear actuators.
#[derive(Debug)]
pub struct LinearCmd {
    pub device_index: u32,
    pub vectors: Vec<VectorSubcommand>,
}

impl View for LinearCmd {
    type V = (u32, Seq<VectorSubcommand>);

    open spec fn view(&self) -> (u32, Seq<VectorSubcommand>) {
        (self.device_index, self.vectors@)
    }
}

impl LinearCmd {
    pub fn new(device_index: u32, vectors: Vec<VectorSubcommand>) -> (c: LinearCmd)
        ensures
            c@ == (device_index, vectors@),
    {
        LinearCmd { device_index, vectors }
    }
}

impl Clone for LinearCmd {
    fn clone(&self) -> (c: LinearCmd)
        ensures
            c@ == self@,
    {
        let vectors = self.vectors.clone();
        assert(vectors@ =~= self.vectors@);
        LinearCmd { device_index: self.device_index, vectors }
    }
}

/// Any command that can be sent to a device.
#[derive(Debug)]
pub enum ButtplugDeviceCommandMessageUnion {
    VibrateCmd(VibrateCmd),
    RotateCmd(RotateCmd),
    LinearCmd(LinearCmd),
}

/// A device command as a mathematical value.
pub enum CommandView {
    Vibrate(u32, Seq<VibrateSubcommand>),
    Rotate(u32, Seq<RotationSubcommand>),
    Linear(u32, Seq<VectorSubcommand>),
}

impl View for ButtplugDeviceCommandMessageUnion {
    type V = CommandView;

    open spec fn view(&self) -> CommandView {
        match self {
            ButtplugDeviceCommandMessageUnion::VibrateCmd(c) => CommandView::Vibrate(
                c.device_index,
                c.speeds@,
            ),
            ButtplugDeviceCommandMessageUnion::RotateCmd(c) => CommandView::Rotate(
                c.device_index,
                c.rotations@,
            ),
            ButtplugDeviceCommandMessageUnion::LinearCmd(c) => CommandView::Linear(
                c.device_index,
                c.vectors@,
            ),
        }
    }
}

impl Clone for ButtplugDeviceCommandMessageUnion {
    fn clone(&self) -> (c: ButtplugDeviceCommandMessageUnion)
        ensures
            c@ == self@,
    {
        match self {
            ButtplugDeviceCommandMessageUnion::VibrateCmd(m) => {
                ButtplugDeviceCommandMessageUnion::VibrateCmd(m.clone())
            },
            ButtplugDeviceCommandMessageUnion::RotateCmd(m) => {
                ButtplugDeviceCommandMessageUnion::RotateCmd(m.clone())
            },
            ButtplugDeviceCommandMessageUnion::LinearCmd(m) => {
                ButtplugDeviceCommandMessageUnion::LinearCmd(m.clone())
            },
        }
    }
}

/// The kinds of actuator command that a device may support.
#[derive(Clone, Copy, Debug, PartialEq, Eq, Hash, Structural)]
pub enum ButtplugDeviceMessageType {
    VibrateCmd,
    RotateCmd,
    LinearCmd,
}

/// What a device offers for one kind of command.
#[derive(Debug)]
pub struct MessageAttributes {
    /// How many features of this kind the device has. Absent means none.
    pub feature_count: Option<u32>,
    /// The number of steps of each feature, by feature index.
    pub step_count: Option<Vec<u32>>,
}

impl MessageAttributes {
    /// The number of features; zero when no count is given.
    pub open spec fn features(&self) -> nat {
        match self.feature_count {
            Some(n) => n as nat,
            None => 0,
        }
    }

    /// The step counts by feature index; empty when none are given.
    pub open spec fn steps(&self) -> Seq<u32> {
        match self.step_count {
            Some(s) => s@,
            None => Seq::empty(),
        }
    }

    /// Every feature has a step count.
    pub open spec fn spec_has_step_counts(&self) -> bool {
        self.features() <= self.steps().len()
    }

    /// Every feature has a step count.
    #[verifier::when_used_as_spec(spec_has_step_counts)]
    pub fn has_step_counts(&self) -> (b: bool)
        ensures
            b == self.spec_has_step_counts(),
    {
        match self.feature_count {
            None => true,
            Some(n) => match &self.step_count {
                None => n == 0,
                Some(s) => n as usize <= s.len(),
            },
        }
    }
}

impl Default for MessageAttributes {
    fn default() -> (a: MessageAttributes)
        ensures
            a.feature_count is None,
            a.step_count is None,
    {
        MessageAttributes { feature_count: None, step_count: None }
    }
}

/// The capability descriptor of a device: what it offers for each kind of
/// command. A kind without an entry has no features.
#[derive(Debug)]
pub struct MessageAttributesMap {
    vibrate: Option<MessageAttributes>,
    rotate: Option<MessageAttributes>,
    linear: Option<MessageAttributes>,
}

impl MessageAttributesMap {
    closed spec fn slot(self, kind: ButtplugDeviceMessageType) -> Option<MessageAttributes> {
        match kind {
            ButtplugDeviceMessageType::VibrateCmd => self.vibrate,
            ButtplugDeviceMessageType::RotateCmd => self.rotate,
            ButtplugDeviceMessageType::LinearCmd => self.linear,
        }
    }

    /// An empty descriptor.
    pub fn new() -> (m: MessageAttributesMap)
        ensures
            m@ == Map::<ButtplugDeviceMessageType, MessageAttributes>::empty(),
    {
        let m = MessageAttributesMap { vibrate: None, rotate: None, linear: None };
        assert(m@ =~= Map::<ButtplugDeviceMessageType, MessageAttributes>::empty());
        m
    }

    /// Sets the entry of `kind` and returns the one it replaces.
    pub fn insert(
        &mut self,
        kind: ButtplugDeviceMessageType,
        attributes: MessageAttributes,
    ) -> (previous: Option<MessageAttributes>)
        ensures
            final(self)@ == old(self)@.insert(kind, attributes),
            previous == (if old(self)@.contains_key(kind) {
                Some(old(self)@[kind])
            } else {
                None
            }),
    {
        let previous = match kind {
            ButtplugDeviceMessageType::VibrateCmd => {
                let p = self.vibrate.take();
                self.vibrate = Some(attributes);
                p
            },
            ButtplugDeviceMessageType::RotateCmd => {
                let p = self.rotate.take();
                self.rotate = Some(attributes);
                p
            },
            ButtplugDeviceMessageType::LinearCmd => {
                let p = self.linear.take();
                self.linear = Some(attributes);
                p
            },
        };
        assert(self@ =~= old(self)@.insert(kind, attributes));
        previous
    }

    /// The entry of `kind`, if the descriptor has one.
    pub fn get(&self, kind: &ButtplugDeviceMessageType) -> (entry: Option<&MessageAttributes>)
        ensures
            match entry {
                Some(a) => self@.contains_key(*kind) && *a == self@[*kind],
                None => !self@.contains_key(*kind),
            },
    {
        match kind {
            ButtplugDeviceMessageType::VibrateCmd => self.vibrate.as_ref(),
            ButtplugDeviceMessageType::RotateCmd => self.rotate.as_ref(),
            ButtplugDeviceMessageType::LinearCmd => self.linear.as_ref(),
        }
    }
}

impl View for MessageAttributesMap {
    type V = Map<ButtplugDeviceMessageType, MessageAttributes>;

    closed spec fn view(&self) -> Map<ButtplugDeviceMessageType, MessageAttributes> {
        Map::new(
            |kind: ButtplugDeviceMessageType| self.slot(kind) is Some,
            |kind: ButtplugDeviceMessageType| self.slot(kind)->Some_0,
        )
    }
}

} // verus!
