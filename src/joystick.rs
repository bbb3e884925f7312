//! What the virtual joystick reports when RC channels change: the mapping
//! from the sixteen channel values to axis positions and button states.
use crate::channels::{unpack_channels, unpacked_channels, PACKED_CHANNELS_LEN};
use crate::crsf::PacketType;
use vstd::prelude::*;
use vstd::slice::slice_subrange;

verus! {

/// Largest axis value the joystick reports.
pub const AXIS_MAX: u16 = 1983;

/// Centre of an axis; two-position switches flip here.
pub const AXIS_MID: u16 = 992;

/// A three-position switch at or below this value is in its left position.
pub const AXIS_3POS_LEFT: u16 = 592;

/// A three-position switch at or above this value is in its right position.
pub const AXIS_3POS_RIGHT: u16 = 1392;

/// Number of channels that drive the joystick.
pub const MAPPED_CHANNELS: usize = 12;

/// A control of the virtual joystick.
#[derive(Debug, Clone, Copy, PartialEq, Eq, Structural)]
pub enum Control {
    AxisX,
    AxisY,
    AxisZ,
    AxisRx,
    AxisThrottle,
    AxisRudder,
    AxisWheel,
    BtnTrigger,
    BtnThumb,
    BtnThumb2,
    BtnTop,
    BtnTop2,
    BtnPinkie,
    BtnBase,
    BtnBase2,
    BtnBase3,
    BtnBase4,
    BtnBase5,
    BtnBase6,
    /// The button after `BtnBase6`, which has no name of its own.
    BtnBase7,
}

/// One control reported at one value: an axis position, or 1 and 0 for a
/// pressed and a released button.
#[derive(Debug, Clone, Copy, PartialEq, Eq, Structural)]
pub struct JoystickEvent {
    pub control: Control,
    pub value: i32,
}

/// A button event: pressed when `on`.
pub open spec fn button(control: Control, on: bool) -> JoystickEvent {
    JoystickEvent { control, value: if on { 1 } else { 0 } }
}

/// An axis event at `v`.
pub open spec fn axis(control: Control, v: u16) -> JoystickEvent {
    JoystickEvent { control, value: v as i32 }
}

/// The events reported together when channel `i` changes to `v`.
pub open spec fn channel_events(i: int, v: u16) -> Seq<JoystickEvent> {
    if i == 0 {
        seq![axis(Control::AxisX, v)]
    } else if i == 1 {
        seq![axis(Control::AxisY, v)]
    } else if i == 2 {
        seq![axis(Control::AxisZ, v)]
    } else if i == 3 {
        seq![axis(Control::AxisRx, v)]
    } else if i == 4 {
        seq![
            button(Control::BtnTrigger, v < AXIS_MID),
            button(Control::BtnThumb, v >= AXIS_MID),
            axis(Control::AxisThrottle, v),
        ]
    } else if i == 5 {
        seq![button(Control::BtnThumb2, v >= AXIS_MID)]
    } else if i == 6 {
        seq![axis(Control::AxisRudder, v)]
    } else if i == 7 {
        seq![
            button(Control::BtnBase6, v < AXIS_MID),
            button(Control::BtnBase7, v >= AXIS_MID),
            axis(Control::AxisWheel, v),
        ]
    } else if i == 8 {
        seq![
            button(Control::BtnTop, v <= AXIS_3POS_LEFT),
            button(Control::BtnTop2, v >= AXIS_3POS_RIGHT),
        ]
    } else if i == 9 {
        seq![
            button(Control::BtnPinkie, v <= AXIS_3POS_LEFT),
            button(Control::BtnBase, v >= AXIS_3POS_RIGHT),
        ]
    } else if i == 10 {
        seq![
            button(Control::BtnBase2, v <= AXIS_3POS_LEFT),
            button(Control::BtnBase3, v >= AXIS_3POS_RIGHT),
        ]
    } else if i == 11 {
        seq![
            button(Control::BtnBase4, v <= AXIS_3POS_LEFT),
            button(Control::BtnBase5, v >= AXIS_3POS_RIGHT),
        ]
    } else {
        Seq::empty()
    }
}

/// The batches of events for the first `n` channels, in channel order: one
/// batch for each channel whose value differs between `old` and `new`.
pub open spec fn change_batches(old: Seq<u16>, new: Seq<u16>, n: nat) -> Seq<Seq<JoystickEvent>>
    decreases n,
{
    if n == 0 {
        Seq::empty()
    } else {
        let i = n - 1;
        let before = change_batches(old, new, i as nat);
        if old[i] != new[i] {
            before.push(channel_events(i, new[i]))
        } else {
            before
        }
    }
}

/// The contents of a list of batches.
pub open spec fn batches_view(b: Seq<Vec<JoystickEvent>>) -> Seq<Seq<JoystickEvent>> {
    b.map_values(|v: Vec<JoystickEvent>| v@)
}

/// The events reported together when channel `i` changes to `v`.
pub fn events_for_channel(i: usize, v: u16) -> (r: Vec<JoystickEvent>)
    ensures
        r@ == channel_events(i as int, v),
{
    let b = |c: Control, on: bool| -> (e: JoystickEvent)
        ensures
            e == button(c, on),
        { JoystickEvent { control: c, value: if on { 1 } else { 0 } } };
    let a = |c: Control| -> (e: JoystickEvent)
        ensures
            e == axis(c, v),
        { JoystickEvent { control: c, value: v as i32 } };
    let r = if i == 0 {
        vec![a(Control::AxisX)]
    } else if i == 1 {
        vec![a(Control::AxisY)]
    } else if i == 2 {
        vec![a(Control::AxisZ)]
    } else if i == 3 {
        vec![a(Control::AxisRx)]
    } else if i == 4 {
        vec![
            b(Control::BtnTrigger, v < AXIS_MID),
            b(Control::BtnThumb, v >= AXIS_MID),
            a(Control::AxisThrottle),
        ]
    } else if i == 5 {
        vec![b(Control::BtnThumb2, v >= AXIS_MID)]
    } else if i == 6 {
        vec![a(Control::AxisRudder)]
    } else if i == 7 {
        vec![
            b(Control::BtnBase6, v < AXIS_MID),
            b(Control::BtnBase7, v >= AXIS_MID),
            a(Control::AxisWheel),
        ]
    } else if i == 8 {
        vec![b(Control::BtnTop, v <= AXIS_3POS_LEFT), b(Control::BtnTop2, v >= AXIS_3POS_RIGHT)]
    } else if i == 9 {
        vec![b(Control::BtnPinkie, v <= AXIS_3POS_LEFT), b(Control::BtnBase, v >= AXIS_3POS_RIGHT)]
    } else if i == 10 {
        vec![b(Control::BtnBase2, v <= AXIS_3POS_LEFT), b(Control::BtnBase3, v >= AXIS_3POS_RIGHT)]
    } else if i == 11 {
        vec![b(Control::BtnBase4, v <= AXIS_3POS_LEFT), b(Control::BtnBase5, v >= AXIS_3POS_RIGHT)]
    } else {
        Vec::new()
    };
    assert(r@ =~= channel_events(i as int, v));
    r
}

/// The channel values last reported to the joystick.
pub struct JoystickState {
    old_channels: [u16; 16],
}

impl JoystickState {
    /// The channel values last reported.
    pub closed spec fn last(&self) -> Seq<u16> {
        self.old_channels@
    }

    /// A state that matches no channel value, so that the first update
    /// reports every control.
    pub fn new() -> (r: JoystickState)
        ensures
            r.last() == Seq::new(16, |i: int| 0xffffu16),
    {
        let r = JoystickState { old_channels: [0xffffu16; 16] };
        assert(r.old_channels@ =~= Seq::new(16, |i: int| 0xffffu16));
        r
    }

    /// Takes in new channel values: the batches of events to report, one per
    /// mapped channel that changed, in channel order.
    pub fn update(&mut self, channels: [u16; 16]) -> (batches: Vec<Vec<JoystickEvent>>)
        ensures
            final(self).last() == channels@,
            batches_view(batches@) == change_batches(
                old(self).last(),
                channels@,
                MAPPED_CHANNELS as nat,
            ),
    {
        let mut batches: Vec<Vec<JoystickEvent>> = Vec::new();
        let mut i: usize = 0;
        while i < MAPPED_CHANNELS
            invariant
                i <= MAPPED_CHANNELS,
                self.old_channels@ == old(self).old_channels@,
                batches_view(batches@) == change_batches(
                    old(self).old_channels@,
                    channels@,
                    i as nat,
                ),
            decreases MAPPED_CHANNELS - i,
        {
            if channels[i] != self.old_channels[i] {
                let ghost before = batches@;
                batches.push(events_for_channel(i, channels[i]));
                assert(batches_view(batches@) =~= batches_view(before).push(
                    channel_events(i as int, channels@[i as int]),
                ));
            }
            i = i + 1;
        }
        self.old_channels = channels;
        batches
    }
}

/// Every channel is within the joystick's axis range.
pub fn channels_within_axis(channels: &[u16; 16]) -> (r: bool)
    ensures
        r == forall|i: int| 0 <= i < 16 ==> channels@[i] <= AXIS_MAX,
{
    let mut i: usize = 0;
    while i < 16
        invariant
            i <= 16,
            forall|j: int| 0 <= j < i ==> channels@[j] <= AXIS_MAX,
        decreases 16 - i,
    {
        if channels[i] > AXIS_MAX {
            return false;
        }
        i = i + 1;
    }
    true
}

/// The channels carried by a datagram (type byte and payload) if it is an
/// RC channels packet with at least 22 payload bytes.
pub fn channels_from_datagram(datagram: &[u8]) -> (r: Option<[u16; 16]>)
    ensures
        r is Some <==> datagram@.len() > PACKED_CHANNELS_LEN && datagram@[0]
            == PacketType::RcChannelsPacked.spec_code(),
        r matches Some(c) ==> c@ == unpacked_channels(datagram@.drop_first()),
{
    if datagram.len() <= 1 || datagram[0] != PacketType::RcChannelsPacked.code() {
        return None;
    }
    let payload = slice_subrange(datagram, 1, datagram.len());
    assert(payload@ =~= datagram@.drop_first());
    unpack_channels(payload)
}

} // verus!
