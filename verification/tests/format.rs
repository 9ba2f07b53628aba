use gnw_encode::config::build_config;
use gnw_encode::errors::EncodeError;
use gnw_encode::fields::{entry_from_bytes, entry_to_bytes, pack_geometry, unpack_geometry};
use gnw_encode::naming::derive_output_name;
use gnw_encode::pixels::pack_pixels;
use gnw_encode::platform::{
    Action, CpuType, Device, Metadata, NamedAction, PlatformSpecification, Port, PortMap, Rom,
    Screen, ScreenDimensions, input_value_for_port,
};

fn platform(cpu: CpuType, screen: Screen, name: &str, ports: Vec<Port>) -> PlatformSpecification {
    PlatformSpecification {
        device: Device { cpu, screen },
        port_map: PortMap {
            ports,
            ground_last_index: None,
        },
        rom: Rom {
            filename: String::from("rom.bin"),
            sha1_hex: String::from("da39a3ee5e6b4b0d3255bfef95601890afd80709"),
        },
        metadata: Metadata {
            name: String::from(name),
            company: String::from("Nintendo"),
        },
    }
}

#[test]
fn geometry_round_trip_examples() {
    for &(w, h) in &[(80u16, 64u16), (0, 0), (1023, 1023), (720, 720), (1, 1022)] {
        let packed = pack_geometry(w, h);
        assert_eq!(packed.len(), 3);
        let (w2, h2) = unpack_geometry(&packed);
        assert_eq!((w2, h2), (w, h));
    }
}

#[test]
fn entry_field_round_trip() {
    let bytes = entry_to_bytes(513, 700, 1023, 2);
    assert_eq!(bytes.len(), 5);
    let (id, start_x, y, length) = entry_from_bytes(bytes[0], bytes[1], bytes[2], bytes[3], bytes[4]);
    assert_eq!(id, 513);
    assert_eq!(start_x, 1023);
    assert_eq!(y, 2);
    assert_eq!(length, 700);
}

#[test]
fn action_byte_sets_bit7_for_active_low() {
    let low = input_value_for_port(NamedAction {
        action: Action::Button1,
        active_low: true,
    });
    assert_eq!(low & 0x7f, 4);
    assert_eq!(low & 0x80, 0x80);

    let high = input_value_for_port(NamedAction {
        action: Action::Button1,
        active_low: false,
    });
    assert_eq!(high & 0x7f, 4);
    assert_eq!(high & 0x80, 0);

    let unused = input_value_for_port(NamedAction {
        action: Action::Unused,
        active_low: true,
    });
    assert_eq!(unused, 0xff);
}

#[test]
fn header_example_ball() {
    let p = platform(
        CpuType::SM510,
        Screen::Single {
            width: 80,
            height: 64,
        },
        "Game & Watch: Ball",
        vec![],
    );
    let config = build_config(&p, &Vec::new()).unwrap();
    assert_eq!(config.len(), 256);
    assert_eq!(&config[0..3], &[1, 0, 0]);
    let geometry = vec![config[3], config[4], config[5]];
    let (w, h) = unpack_geometry(&geometry);
    assert_eq!(w, 80);
    assert_eq!(h, 64);
    assert_eq!(derive_output_name(&p.metadata.name), "Ball.gnw");
}

#[test]
fn unmapped_ports_use_pullup_defaults() {
    let p = platform(
        CpuType::SM510,
        Screen::Single {
            width: 16,
            height: 16,
        },
        "X",
        vec![],
    );
    let config = build_config(&p, &Vec::new()).unwrap();
    // B and BA read high when undriven: Unused (0x7f) with bit 7 set.
    assert_eq!(config[40], 0xff);
    assert_eq!(config[41], 0xff);
    // ACL defaults to Unused without active-low.
    assert_eq!(config[42], 0x7f);
    // Ground index 0 means unset.
    assert_eq!(config[43], 0);
}

#[test]
fn s_port_slots_and_sentinels() {
    let slots = [
        Some(NamedAction {
            action: Action::JoyLeft,
            active_low: false,
        }),
        None,
        Some(NamedAction {
            action: Action::Select,
            active_low: true,
        }),
        None,
    ];
    let p = platform(
        CpuType::SM511,
        Screen::Single {
            width: 16,
            height: 16,
        },
        "X",
        vec![Port::S { index: 1, slots }],
    );
    let config = build_config(&p, &Vec::new()).unwrap();
    // S0 is absent: four sentinel bytes.
    assert_eq!(&config[8..12], &[0x7f, 0x7f, 0x7f, 0x7f]);
    // S1 carries the declared slots.
    assert_eq!(config[12], 2);
    assert_eq!(config[13], 0x7f);
    assert_eq!(config[14], 12 | 0x80);
    assert_eq!(config[15], 0x7f);
}

#[test]
fn ground_byte_is_one_based() {
    let mut p = platform(
        CpuType::SM510,
        Screen::Single {
            width: 16,
            height: 16,
        },
        "X",
        vec![],
    );
    p.port_map.ground_last_index = Some(3);
    let config = build_config(&p, &Vec::new()).unwrap();
    assert_eq!(config[43], 4);
}

#[test]
fn out_of_range_port_index_fails() {
    let p = platform(
        CpuType::SM510,
        Screen::Single {
            width: 16,
            height: 16,
        },
        "X",
        vec![Port::S {
            index: 8,
            slots: [None, None, None, None],
        }],
    );
    let err = build_config(&p, &Vec::new()).unwrap_err();
    assert_eq!(err, EncodeError::PortIndexOutOfBounds { index: 8 });
}

#[test]
fn build_stamp_takes_first_seven_bytes() {
    let p = platform(
        CpuType::SM510,
        Screen::Single {
            width: 16,
            height: 16,
        },
        "X",
        vec![],
    );
    let revision: Vec<u8> = b"abcdef1234567890".to_vec();
    let config = build_config(&p, &revision).unwrap();
    assert_eq!(&config[249..256], b"abcdef1");

    let config = build_config(&p, &Vec::new()).unwrap();
    assert_eq!(&config[249..256], &[0, 0, 0, 0, 0, 0, 0]);
}

#[test]
fn dual_screen_uses_first_half() {
    let p = platform(
        CpuType::SM512,
        Screen::DualVertical {
            top: ScreenDimensions {
                width: 100,
                height: 50,
            },
            bottom: ScreenDimensions {
                width: 90,
                height: 50,
            },
        },
        "X",
        vec![],
    );
    let config = build_config(&p, &Vec::new()).unwrap();
    assert_eq!(config[2], 1);
    let geometry = vec![config[3], config[4], config[5]];
    assert_eq!(unpack_geometry(&geometry), (100, 50));
}

#[test]
fn pack_pixels_interleaves_and_drops_alpha() {
    let background: Vec<u8> = vec![1, 2, 3, 4, 5, 6, 7, 8];
    let mask: Vec<u8> = vec![9, 10, 11, 12, 13, 14, 15, 16];
    let packed = pack_pixels(&background, &mask);
    assert_eq!(packed, vec![1, 9, 2, 10, 3, 11, 5, 13, 6, 14, 7, 15]);
}

#[test]
fn derive_output_name_strips_prefix_and_colons() {
    assert_eq!(
        derive_output_name(&String::from("Game & Watch: Ball")),
        "Ball.gnw"
    );
    assert_eq!(
        derive_output_name(&String::from("game & watch:  Fire ")),
        "Fire.gnw"
    );
    assert_eq!(
        derive_output_name(&String::from("Zelda: Adventure")),
        "Zelda - Adventure.gnw"
    );
    assert_eq!(derive_output_name(&String::from("Octopus")), "Octopus.gnw");
}
