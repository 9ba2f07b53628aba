//! The header/config builder: serializes device metadata, geometry and
//! input mapping into the fixed 256-byte preamble of the image.

use vstd::prelude::*;
use crate::errors::EncodeError;
use crate::fields::{pack_geometry, spec_geometry_bytes};
use crate::platform::{
    input_value_for_port, mpu_code, screen_code, screen_height, screen_width, spec_action_byte,
    spec_mpu_code, spec_screen_code, spec_screen_height, spec_screen_width, NamedAction,
    PlatformSpecification, Port,
};

verus! {

/// Whether this port is an S-port declaring an index outside 0..7.
pub open spec fn spec_port_bad(p: Port) -> bool {
    match p {
        Port::S { index, .. } => index > 7,
        _ => false,
    }
}

pub open spec fn spec_has_bad_port(ports: Seq<Port>) -> bool {
    exists|i: int| 0 <= i < ports.len() && spec_port_bad(#[trigger] ports[i])
}

/// Index (into `ports`) of the first out-of-range S-port at or after `i`,
/// or -1 when there is none.
pub open spec fn spec_first_bad_port(ports: Seq<Port>, i: int) -> int
    decreases ports.len() - i,
{
    if i < 0 || i >= ports.len() {
        -1
    } else if spec_port_bad(ports[i]) {
        i
    } else {
        spec_first_bad_port(ports, i + 1)
    }
}

/// The index value an out-of-range S-port declared.
pub open spec fn spec_bad_port_index(p: Port) -> usize {
    match p {
        Port::S { index, .. } => index,
        _ => 0,
    }
}

/// The slots of S-port `idx`: the last declaration wins; None when the
/// port was never declared.
pub open spec fn spec_resolved_s_slots(ports: Seq<Port>, idx: int) -> Option<
    [Option<NamedAction>; 4],
>
    decreases ports.len(),
{
    if ports.len() == 0 {
        None
    } else {
        match ports.last() {
            Port::S { index, slots } => if index as int == idx {
                Some(slots)
            } else {
                spec_resolved_s_slots(ports.drop_last(), idx)
            },
            _ => spec_resolved_s_slots(ports.drop_last(), idx),
        }
    }
}

/// The B mapping: the last B declaration wins, None when never declared.
pub open spec fn spec_resolved_b(ports: Seq<Port>) -> Option<NamedAction>
    decreases ports.len(),
{
    if ports.len() == 0 {
        None
    } else {
        match ports.last() {
            Port::B { action } => action,
            _ => spec_resolved_b(ports.drop_last()),
        }
    }
}

/// The BA mapping: the last BA declaration wins, None when never declared.
pub open spec fn spec_resolved_ba(ports: Seq<Port>) -> Option<NamedAction>
    decreases ports.len(),
{
    if ports.len() == 0 {
        None
    } else {
        match ports.last() {
            Port::BA { action } => action,
            _ => spec_resolved_ba(ports.drop_last()),
        }
    }
}

/// The ACL mapping: the last ACL declaration wins, None when never declared.
pub open spec fn spec_resolved_acl(ports: Seq<Port>) -> Option<NamedAction>
    decreases ports.len(),
{
    if ports.len() == 0 {
        None
    } else {
        match ports.last() {
            Port::ACL { action } => action,
            _ => spec_resolved_acl(ports.drop_last()),
        }
    }
}

/// Byte of one S-port slot: the action byte, or the 0x7f sentinel for an
/// absent slot.
pub open spec fn spec_slot_byte(slot: Option<NamedAction>) -> u8 {
    match slot {
        Some(a) => spec_action_byte(a),
        None => 0x7f,
    }
}

/// The four bytes of S-port `idx`; a wholly absent port still emits four
/// sentinel bytes.
pub open spec fn spec_s_port_bytes(ports: Seq<Port>, idx: int) -> Seq<u8> {
    match spec_resolved_s_slots(ports, idx) {
        Some(slots) => seq![
            spec_slot_byte(slots[0]),
            spec_slot_byte(slots[1]),
            spec_slot_byte(slots[2]),
            spec_slot_byte(slots[3]),
        ],
        None => seq![0x7f, 0x7f, 0x7f, 0x7f],
    }
}

/// The S-port bytes of ports 0..n.
pub open spec fn spec_input_block_up_to(ports: Seq<Port>, n: int) -> Seq<u8>
    decreases n,
{
    if n <= 0 {
        Seq::empty()
    } else {
        spec_input_block_up_to(ports, n - 1) + spec_s_port_bytes(ports, n - 1)
    }
}

/// The 32-byte input-mapping block: 8 S-ports x 4 slots.
pub open spec fn spec_input_block(ports: Seq<Port>) -> Seq<u8> {
    spec_input_block_up_to(ports, 8)
}

/// Byte of the B or BA line: these have pull-up resistors, so an unmapped
/// line defaults to "Unused, active-low", which encodes to 0xff.
pub open spec fn spec_pullup_byte(p: Option<NamedAction>) -> u8 {
    match p {
        Some(a) => spec_action_byte(a),
        None => 0xff,
    }
}

/// Byte of the ACL line: an unmapped line defaults to "Unused" with
/// active_low false, which encodes to 0x7f.
pub open spec fn spec_acl_byte(p: Option<NamedAction>) -> u8 {
    match p {
        Some(a) => spec_action_byte(a),
        None => 0x7f,
    }
}

/// Ground byte: one past the last grounded S-port index, or 0 for "unset"
/// (0 never means row 0).
pub open spec fn spec_ground_byte(g: Option<u8>) -> u8 {
    match g {
        Some(i) => (i + 1) as u8,
        None => 0,
    }
}

pub open spec fn spec_zero_bytes(n: int) -> Seq<u8> {
    Seq::new(n as nat, |i: int| 0u8)
}

/// The 7-byte build stamp: the first 7 bytes of the revision string, zero
/// padded, or 7 zero bytes when no revision is available.
pub open spec fn spec_stamp_bytes(revision: Seq<u8>) -> Seq<u8> {
    if revision.len() == 0 {
        spec_zero_bytes(7)
    } else if revision.len() >= 7 {
        revision.take(7)
    } else {
        revision + spec_zero_bytes(7 - revision.len())
    }
}

/// The whole 256-byte preamble.
pub open spec fn spec_config_bytes(platform: PlatformSpecification, revision: Seq<u8>) -> Seq<u8> {
    seq![
        1u8,
        spec_mpu_code(platform.device.cpu),
        spec_screen_code(platform.device.screen),
    ] + spec_geometry_bytes(
        spec_screen_width(platform.device.screen),
        spec_screen_height(platform.device.screen),
    ) + seq![0u8, 0u8] + spec_input_block(platform.port_map.ports@) + seq![
        spec_pullup_byte(spec_resolved_b(platform.port_map.ports@)),
        spec_pullup_byte(spec_resolved_ba(platform.port_map.ports@)),
        spec_acl_byte(spec_resolved_acl(platform.port_map.ports@)),
        spec_ground_byte(platform.port_map.ground_last_index),
    ] + spec_zero_bytes(4) + spec_zero_bytes(0xc9) + spec_stamp_bytes(revision)
}

/// When no B, BA or ACL port is declared, the B and BA lines encode to
/// 0xff (the pull-up default "Unused, active-low" is 0x7f | 0x80) and the
/// ACL line encodes to 0x7f ("Unused", not active-low).
pub proof fn lemma_unmapped_port_defaults(ports: Seq<Port>)
    requires
        forall|i: int| 0 <= i < ports.len() ==> (#[trigger] ports[i]) is S,
    ensures
        spec_pullup_byte(spec_resolved_b(ports)) == 0xff,
        spec_pullup_byte(spec_resolved_ba(ports)) == 0xff,
        spec_acl_byte(spec_resolved_acl(ports)) == 0x7f,
    decreases ports.len(),
{
    if ports.len() > 0 {
        assert(ports[ports.len() - 1] is S);
        lemma_unmapped_port_defaults(ports.drop_last());
    }
}

pub proof fn lemma_input_block_up_to_len(ports: Seq<Port>, n: int)
    requires
        n >= 0,
    ensures
        spec_input_block_up_to(ports, n).len() == 4 * n,
    decreases n,
{
    if n > 0 {
        lemma_input_block_up_to_len(ports, n - 1);
    }
}

fn slot_value(slot: &Option<NamedAction>) -> (r: u8)
    ensures
        r == spec_slot_byte(*slot),
{
    match slot {
        Some(a) => input_value_for_port(*a),
        None => 0x7f,
    }
}

fn resolve_s_slots(ports: &Vec<Port>, idx: usize) -> (r: Option<[Option<NamedAction>; 4]>)
    ensures
        r == spec_resolved_s_slots(ports@, idx as int),
{
    let mut i: usize = ports.len();
    proof {
        assert(ports@.take(i as int) =~= ports@);
    }
    while i > 0
        invariant
            i <= ports@.len(),
            spec_resolved_s_slots(ports@, idx as int) == spec_resolved_s_slots(
                ports@.take(i as int),
                idx as int,
            ),
        decreases i,
    {
        i = i - 1;
        proof {
            assert(ports@.take(i as int + 1).drop_last() =~= ports@.take(i as int));
            assert(ports@.take(i as int + 1).last() == ports@[i as int]);
        }
        match &ports[i] {
            Port::S { index, slots } => {
                if *index == idx {
                    return Some(*slots);
                }
            },
            _ => {},
        }
    }
    None
}

fn resolve_misc_ports(ports: &Vec<Port>) -> (r: (
    Option<NamedAction>,
    Option<NamedAction>,
    Option<NamedAction>,
))
    ensures
        r.0 == spec_resolved_b(ports@),
        r.1 == spec_resolved_ba(ports@),
        r.2 == spec_resolved_acl(ports@),
{
    let mut b: Option<NamedAction> = None;
    let mut ba: Option<NamedAction> = None;
    let mut acl: Option<NamedAction> = None;
    let mut i: usize = 0;
    while i < ports.len()
        invariant
            i <= ports@.len(),
            b == spec_resolved_b(ports@.take(i as int)),
            ba == spec_resolved_ba(ports@.take(i as int)),
            acl == spec_resolved_acl(ports@.take(i as int)),
        decreases ports@.len() - i,
    {
        proof {
            assert(ports@.take(i as int + 1).drop_last() =~= ports@.take(i as int));
            assert(ports@.take(i as int + 1).last() == ports@[i as int]);
        }
        match &ports[i] {
            Port::B { action } => b = *action,
            Port::BA { action } => ba = *action,
            Port::ACL { action } => acl = *action,
            _ => {},
        }
        i = i + 1;
    }
    proof {
        assert(ports@.take(ports@.len() as int) =~= ports@);
    }
    (b, ba, acl)
}

fn input_block(ports: &Vec<Port>) -> (r: Vec<u8>)
    ensures
        r@ == spec_input_block(ports@),
        r@.len() == 32,
{
    let mut r: Vec<u8> = Vec::new();
    let mut idx: usize = 0;
    while idx < 8
        invariant
            idx <= 8,
            r@ == spec_input_block_up_to(ports@, idx as int),
            r@.len() == 4 * idx,
        decreases 8 - idx,
    {
        match resolve_s_slots(ports, idx) {
            Some(slots) => {
                r.push(slot_value(&slots[0]));
                r.push(slot_value(&slots[1]));
                r.push(slot_value(&slots[2]));
                r.push(slot_value(&slots[3]));
            },
            None => {
                r.push(0x7f);
                r.push(0x7f);
                r.push(0x7f);
                r.push(0x7f);
            },
        }
        proof {
            assert(r@ =~= spec_input_block_up_to(ports@, idx as int + 1));
        }
        idx = idx + 1;
    }
    r
}

fn stamp_block(revision: &Vec<u8>) -> (r: Vec<u8>)
    ensures
        r@ == spec_stamp_bytes(revision@),
        r@.len() == 7,
{
    let mut r: Vec<u8> = Vec::new();
    let n = if revision.len() < 7 {
        revision.len()
    } else {
        7
    };
    let mut i: usize = 0;
    while i < n
        invariant
            i <= n,
            n <= revision@.len(),
            n <= 7,
            r@ == revision@.take(i as int),
        decreases n - i,
    {
        r.push(revision[i]);
        proof {
            assert(r@ =~= revision@.take(i as int + 1));
        }
        i = i + 1;
    }
    while i < 7
        invariant
            n <= 7,
            n <= revision@.len(),
            i <= 7,
            n <= i,
            r@.len() == i,
            r@ == revision@.take(n as int) + spec_zero_bytes(i - n),
        decreases 7 - i,
    {
        r.push(0);
        proof {
            assert(r@ =~= revision@.take(n as int) + spec_zero_bytes(i as int + 1 - n));
        }
        i = i + 1;
    }
    proof {
        if revision@.len() == 0 {
            assert(r@ =~= spec_stamp_bytes(revision@));
        } else if revision@.len() >= 7 {
            assert(r@ =~= spec_stamp_bytes(revision@));
        } else {
            assert(revision@.take(n as int) =~= revision@);
            assert(r@ =~= spec_stamp_bytes(revision@));
        }
    }
    r
}

/// Builds the fixed 256-byte preamble: version, MPU code, screen type,
/// packed geometry, the 32-byte input mapping, the B/BA/ACL and ground
/// bytes, the reserved zero regions, and the 7-byte build stamp. The
/// revision stamp is handed in by the caller; it is never read from the
/// environment here. Fails exactly when some S-port declares an index
/// outside 0..7, naming the first such index.
#[verifier::rlimit(60)]
pub fn build_config(platform: &PlatformSpecification, revision: &Vec<u8>) -> (r: Result<
    Vec<u8>,
    EncodeError,
>)
    requires
        spec_screen_width(platform.device.screen) < 1024,
        spec_screen_height(platform.device.screen) < 1024,
        match platform.port_map.ground_last_index {
            Some(g) => g < 255,
            None => true,
        },
    ensures
        match r {
            Ok(config) => {
                &&& !spec_has_bad_port(platform.port_map.ports@)
                &&& config@ == spec_config_bytes(*platform, revision@)
                &&& config@.len() == 256
            },
            Err(e) => {
                &&& spec_has_bad_port(platform.port_map.ports@)
                &&& e == (EncodeError::PortIndexOutOfBounds {
                    index: spec_bad_port_index(
                        platform.port_map.ports@[spec_first_bad_port(
                            platform.port_map.ports@,
                            0,
                        )],
                    ),
                })
            },
        },
{
    let ports = &platform.port_map.ports;

    // Validate S-port indices first: the first offender is reported.
    let mut i: usize = 0;
    while i < ports.len()
        invariant
            i <= ports@.len(),
            ports@ == platform.port_map.ports@,
            spec_first_bad_port(ports@, 0) == spec_first_bad_port(ports@, i as int),
            forall|k: int| 0 <= k < i ==> !spec_port_bad(#[trigger] ports@[k]),
        decreases ports@.len() - i,
    {
        match &ports[i] {
            Port::S { index, .. } => {
                if *index > 7 {
                    proof {
                        assert(spec_port_bad(ports@[i as int]));
                        assert(spec_has_bad_port(ports@));
                        assert(spec_first_bad_port(ports@, i as int) == i as int);
                        assert(spec_first_bad_port(ports@, 0) == i as int);
                    }
                    return Err(EncodeError::PortIndexOutOfBounds { index: *index });
                }
            },
            _ => {},
        }
        i = i + 1;
    }

    let mut config: Vec<u8> = Vec::new();
    config.push(1);
    config.push(mpu_code(platform.device.cpu));
    config.push(screen_code(&platform.device.screen));
    let mut geometry = pack_geometry(
        screen_width(&platform.device.screen),
        screen_height(&platform.device.screen),
    );
    config.append(&mut geometry);
    config.push(0);
    config.push(0);

    let mut inputs = input_block(ports);
    config.append(&mut inputs);

    let (b, ba, acl) = resolve_misc_ports(ports);
    let b_value = match b {
        Some(action) => input_value_for_port(action),
        // B has a pull-up resistor: an unmapped line reads high.
        None => 0xff,
    };
    config.push(b_value);
    let ba_value = match ba {
        Some(action) => input_value_for_port(action),
        // BA has a pull-up resistor too.
        None => 0xff,
    };
    config.push(ba_value);
    let acl_value = match acl {
        Some(action) => input_value_for_port(action),
        None => 0x7f,
    };
    config.push(acl_value);

    let ground = match platform.port_map.ground_last_index {
        // Stored one-based so that 0 can mean "unset".
        Some(index) => index + 1,
        None => 0,
    };
    config.push(ground);

    // Four spacer bytes after the input mapping, then the 0xc9-byte
    // reserved region: all zero, but the consuming loader depends on the
    // absolute offsets, so they are emitted byte for byte.
    let ghost before_zeros = config@;
    let mut z: usize = 0;
    while z < 4 + 0xc9
        invariant
            z <= 4 + 0xc9,
            config@ == before_zeros + spec_zero_bytes(z as int),
        decreases 4 + 0xc9 - z,
    {
        config.push(0);
        proof {
            assert(config@ =~= before_zeros + spec_zero_bytes(z as int + 1));
        }
        z = z + 1;
    }

    let mut stamp = stamp_block(revision);
    config.append(&mut stamp);

    proof {
        lemma_input_block_up_to_len(ports@, 8);
        assert(spec_zero_bytes(4) + spec_zero_bytes(0xc9) =~= spec_zero_bytes(0xcd));
        assert(config@ =~= spec_config_bytes(*platform, revision@));
    }
    Ok(config)
}

} // verus!
