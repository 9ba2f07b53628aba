//! The platform description: the read-only input describing one device's
//! CPU, screen geometry, input-port mapping and ROM reference, together with
//! the byte encodings of its small fields.

use vstd::prelude::*;

verus! {

/// The nine MPU variants a device may use.
#[derive(Clone, Copy, Debug, PartialEq, Eq, Structural)]
pub enum CpuType {
    SM510,
    SM511,
    SM512,
    SM530,
    SM5a,
    SM510Tiger,
    SM511Tiger1Bit,
    SM511Tiger2Bit,
    KB1013VK12,
}

/// Width and height of one screen half, in pixels. Both must fit in 10 bits.
#[derive(Clone, Copy, Debug, PartialEq, Eq, Structural)]
pub struct ScreenDimensions {
    pub width: u16,
    pub height: u16,
}

/// The screen arrangement of a device.
#[derive(Clone, Copy, Debug, PartialEq, Eq, Structural)]
pub enum Screen {
    Single { width: u16, height: u16 },
    DualVertical { top: ScreenDimensions, bottom: ScreenDimensions },
    DualHorizontal { left: ScreenDimensions, right: ScreenDimensions },
}

/// The thirty logical input actions.
#[derive(Clone, Copy, Debug, PartialEq, Eq, Structural)]
pub enum Action {
    JoyUp,
    JoyDown,
    JoyLeft,
    JoyRight,
    Button1,
    Button2,
    Button3,
    Button4,
    Button5,
    Button6,
    Button7,
    Button8,
    Select,
    Start1,
    Start2,
    Service1,
    Service2,
    LeftJoyUp,
    LeftJoyDown,
    LeftJoyLeft,
    LeftJoyRight,
    RightJoyUp,
    RightJoyDown,
    RightJoyLeft,
    RightJoyRight,
    VolumeDown,
    PowerOn,
    PowerOff,
    Keypad,
    Custom,
    Unused,
}

/// One mapped input: a logical action and its electrical polarity.
#[derive(Clone, Copy, Debug, PartialEq, Eq, Structural)]
pub struct NamedAction {
    pub action: Action,
    pub active_low: bool,
}

/// One input port of the device.
#[derive(Clone, Copy, Debug)]
pub enum Port {
    /// An addressable scan line multiplexing four inputs.
    S { index: usize, slots: [Option<NamedAction>; 4] },
    /// The reset line.
    ACL { action: Option<NamedAction> },
    /// The B line (pull-up: reads high when undriven).
    B { action: Option<NamedAction> },
    /// The BA line (pull-up: reads high when undriven).
    BA { action: Option<NamedAction> },
}

/// The full input mapping of a device.
#[derive(Clone, Debug)]
pub struct PortMap {
    pub ports: Vec<Port>,
    /// Index of the last grounded S-port, if any.
    pub ground_last_index: Option<u8>,
}

/// The ROM reference: expected file name and lowercase SHA-1 hex digest.
#[derive(Clone, Debug)]
pub struct Rom {
    pub filename: String,
    pub sha1_hex: String,
}

/// Display name and maker of the device.
#[derive(Clone, Debug)]
pub struct Metadata {
    pub name: String,
    pub company: String,
}

/// CPU and screen of a device.
#[derive(Clone, Copy, Debug)]
pub struct Device {
    pub cpu: CpuType,
    pub screen: Screen,
}

/// Everything the encoder reads about one device.
#[derive(Clone, Debug)]
pub struct PlatformSpecification {
    pub device: Device,
    pub port_map: PortMap,
    pub rom: Rom,
    pub metadata: Metadata,
}

/// Ordinal written into the MPU byte of the preamble.
pub open spec fn spec_mpu_code(cpu: CpuType) -> u8 {
    match cpu {
        CpuType::SM510 => 0,
        CpuType::SM511 => 1,
        CpuType::SM512 => 2,
        CpuType::SM530 => 3,
        CpuType::SM5a => 4,
        CpuType::SM510Tiger => 5,
        CpuType::SM511Tiger1Bit => 6,
        CpuType::SM511Tiger2Bit => 7,
        CpuType::KB1013VK12 => 8,
    }
}

/// Direct ordinal lookup over the nine CPU variants.
pub fn mpu_code(cpu: CpuType) -> (r: u8)
    ensures
        r == spec_mpu_code(cpu),
{
    match cpu {
        CpuType::SM510 => 0,
        CpuType::SM511 => 1,
        CpuType::SM512 => 2,
        CpuType::SM530 => 3,
        CpuType::SM5a => 4,
        CpuType::SM510Tiger => 5,
        CpuType::SM511Tiger1Bit => 6,
        CpuType::SM511Tiger2Bit => 7,
        CpuType::KB1013VK12 => 8,
    }
}

/// Screen-type byte: 0 single, 1 dual-vertical, 2 dual-horizontal.
pub open spec fn spec_screen_code(screen: Screen) -> u8 {
    match screen {
        Screen::Single { .. } => 0,
        Screen::DualVertical { .. } => 1,
        Screen::DualHorizontal { .. } => 2,
    }
}

/// Width encoded into the geometry field: the first-declared half's width.
pub open spec fn spec_screen_width(screen: Screen) -> u16 {
    match screen {
        Screen::Single { width, .. } => width,
        Screen::DualVertical { top, .. } => top.width,
        Screen::DualHorizontal { left, .. } => left.width,
    }
}

/// Height encoded into the geometry field: the first-declared half's height.
pub open spec fn spec_screen_height(screen: Screen) -> u16 {
    match screen {
        Screen::Single { height, .. } => height,
        Screen::DualVertical { top, .. } => top.height,
        Screen::DualHorizontal { left, .. } => left.height,
    }
}

/// Whether the two halves of a dual screen declare different dimensions.
/// The encoder still uses the first-declared half; this only drives a
/// non-fatal warning, which the caller may log.
pub open spec fn spec_screen_mismatch(screen: Screen) -> bool {
    match screen {
        Screen::Single { .. } => false,
        Screen::DualVertical { top, bottom } => top != bottom,
        Screen::DualHorizontal { left, right } => left != right,
    }
}

pub fn screen_code(screen: &Screen) -> (r: u8)
    ensures
        r == spec_screen_code(*screen),
{
    match screen {
        Screen::Single { .. } => 0,
        Screen::DualVertical { .. } => 1,
        Screen::DualHorizontal { .. } => 2,
    }
}

pub fn screen_width(screen: &Screen) -> (r: u16)
    ensures
        r == spec_screen_width(*screen),
{
    match screen {
        Screen::Single { width, .. } => *width,
        Screen::DualVertical { top, .. } => top.width,
        Screen::DualHorizontal { left, .. } => left.width,
    }
}

pub fn screen_height(screen: &Screen) -> (r: u16)
    ensures
        r == spec_screen_height(*screen),
{
    match screen {
        Screen::Single { height, .. } => *height,
        Screen::DualVertical { top, .. } => top.height,
        Screen::DualHorizontal { left, .. } => left.height,
    }
}

pub fn screen_mismatch(screen: &Screen) -> (r: bool)
    ensures
        r == spec_screen_mismatch(*screen),
{
    match screen {
        Screen::Single { .. } => false,
        Screen::DualVertical { top, bottom } => *top != *bottom,
        Screen::DualHorizontal { left, right } => *left != *right,
    }
}

/// Canonical ordinal of an action in the thirty-entry table.
pub open spec fn spec_action_ordinal(action: Action) -> u8 {
    match action {
        Action::JoyUp => 0,
        Action::JoyDown => 1,
        Action::JoyLeft => 2,
        Action::JoyRight => 3,
        Action::Button1 => 4,
        Action::Button2 => 5,
        Action::Button3 => 6,
        Action::Button4 => 7,
        Action::Button5 => 8,
        Action::Button6 => 9,
        Action::Button7 => 10,
        Action::Button8 => 11,
        Action::Select => 12,
        Action::Start1 => 13,
        Action::Start2 => 14,
        Action::Service1 => 15,
        Action::Service2 => 16,
        Action::LeftJoyUp => 17,
        Action::LeftJoyDown => 18,
        Action::LeftJoyLeft => 19,
        Action::LeftJoyRight => 20,
        Action::RightJoyUp => 21,
        Action::RightJoyDown => 22,
        Action::RightJoyLeft => 23,
        Action::RightJoyRight => 24,
        Action::VolumeDown => 25,
        Action::PowerOn => 26,
        Action::PowerOff => 27,
        Action::Keypad => 28,
        Action::Custom => 29,
        Action::Unused => 0x7f,
    }
}

/// Full action byte: low 7 bits the ordinal, bit 7 set iff active-low.
pub open spec fn spec_action_byte(a: NamedAction) -> u8 {
    if a.active_low {
        spec_action_ordinal(a.action) | 0x80
    } else {
        spec_action_ordinal(a.action)
    }
}

/// Encodes one mapped input as its action byte. The low 7 bits carry the
/// canonical ordinal independent of polarity; bit 7 is set exactly when the
/// input is active-low.
pub fn input_value_for_port(action: NamedAction) -> (r: u8)
    ensures
        r == spec_action_byte(action),
        r & 0x7f == spec_action_ordinal(action.action),
        (r & 0x80 == 0x80) <==> action.active_low,
{
    let mut input: u8 = match action.action {
        Action::JoyUp => 0,
        Action::JoyDown => 1,
        Action::JoyLeft => 2,
        Action::JoyRight => 3,
        Action::Button1 => 4,
        Action::Button2 => 5,
        Action::Button3 => 6,
        Action::Button4 => 7,
        Action::Button5 => 8,
        Action::Button6 => 9,
        Action::Button7 => 10,
        Action::Button8 => 11,
        Action::Select => 12,
        Action::Start1 => 13,
        Action::Start2 => 14,
        Action::Service1 => 15,
        Action::Service2 => 16,
        Action::LeftJoyUp => 17,
        Action::LeftJoyDown => 18,
        Action::LeftJoyLeft => 19,
        Action::LeftJoyRight => 20,
        Action::RightJoyUp => 21,
        Action::RightJoyDown => 22,
        Action::RightJoyLeft => 23,
        Action::RightJoyRight => 24,
        Action::VolumeDown => 25,
        Action::PowerOn => 26,
        Action::PowerOff => 27,
        Action::Keypad => 28,
        Action::Custom => 29,
        Action::Unused => 0x7f,
    };

    if action.active_low {
        input = input | 0x80;
    }

    proof {
        let ord = spec_action_ordinal(action.action);
        assert(ord <= 0x7f);
        assert(ord <= 0x7f ==> (ord | 0x80) & 0x7f == ord && ord & 0x7f == ord
            && (ord | 0x80) & 0x80 == 0x80 && ord & 0x80 == 0) by (bit_vector);
    }

    input
}

} // verus!
