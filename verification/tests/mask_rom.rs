use gnw_encode::errors::EncodeError;
use gnw_encode::fields::entry_from_bytes;
use gnw_encode::image::encode;
use gnw_encode::mask::build_mask_map;
use gnw_encode::platform::{
    CpuType, Device, Metadata, PlatformSpecification, Port, PortMap, Rom, Screen,
};
use gnw_encode::rom::{resolve_rom, RomFile};
use sha1::{Digest, Sha1};

/// Scans a mask stream: unpacks each 5-byte entry and paints every run with
/// a nonzero length back onto a width x height grid.
fn rasterize(stream: &[u8], width: usize, height: usize) -> Vec<Option<u16>> {
    let mut grid: Vec<Option<u16>> = vec![None; width * height];
    for chunk in stream.chunks_exact(5) {
        let (id, start_x, y, length) =
            entry_from_bytes(chunk[0], chunk[1], chunk[2], chunk[3], chunk[4]);
        for dx in 0..length as usize {
            let x = start_x as usize + dx;
            if x < width && (y as usize) < height {
                grid[y as usize * width + x] = Some(id);
            }
        }
    }
    grid
}

fn entries(stream: &[u8]) -> Vec<(u16, u16, u16, u16)> {
    stream
        .chunks_exact(5)
        .map(|c| entry_from_bytes(c[0], c[1], c[2], c[3], c[4]))
        .filter(|&(_, _, _, length)| length > 0)
        .collect()
}

#[test]
fn uniform_mask_yields_one_entry_per_row() {
    let grid: Vec<Option<u16>> = vec![Some(5); 4 * 3];
    let stream = build_mask_map(&grid, 4, 3).unwrap();
    assert_eq!(stream.len(), 5 * 52 * 3);
    let found = entries(&stream);
    assert_eq!(found.len(), 3);
    for (y, &(id, start_x, row, length)) in found.iter().enumerate() {
        assert_eq!(id, 5);
        assert_eq!(start_x, 0);
        assert_eq!(row, y as u16);
        assert_eq!(length, 4);
    }
}

#[test]
fn alternating_mask_exceeds_capacity() {
    // 60 distinct single-pixel runs per row exceed the budget of 52.
    let width = 60;
    let height = 2;
    let grid: Vec<Option<u16>> = (0..width * height)
        .map(|i| Some((i % 2) as u16))
        .collect();
    let err = build_mask_map(&grid, width, height).unwrap_err();
    assert_eq!(
        err,
        EncodeError::MaskCapacityExceeded {
            attempted: 5 * 52 * height + 5,
            capacity: 5 * 52 * height,
        }
    );
}

#[test]
fn mask_stream_round_trips() {
    let width = 6;
    let height = 3;
    let mut grid: Vec<Option<u16>> = vec![None; width * height];
    // Row 0: two runs split by a gap.
    grid[0] = Some(7);
    grid[1] = Some(7);
    grid[3] = Some(8);
    grid[4] = Some(8);
    grid[5] = Some(8);
    // Row 1: adjacent runs of different ids.
    for x in 0..3 {
        grid[width + x] = Some(1);
    }
    for x in 3..6 {
        grid[width + x] = Some(2);
    }
    // Row 2: a run touching the right edge is force-flushed.
    grid[2 * width + 5] = Some(1023);

    let stream = build_mask_map(&grid, width, height).unwrap();
    assert_eq!(rasterize(&stream, width, height), grid);
}

#[test]
fn empty_mask_emits_no_entries() {
    let grid: Vec<Option<u16>> = vec![None; 8 * 2];
    let stream = build_mask_map(&grid, 8, 2).unwrap();
    assert_eq!(stream.len(), 5 * 52 * 2);
    assert!(stream.iter().all(|&b| b == 0));
}

#[test]
fn rom_resolves_by_name_first() {
    let named = RomFile {
        name: String::from("rom.bin"),
        bytes: vec![1, 2, 3],
    };
    let other = RomFile {
        name: String::from("other.bin"),
        bytes: vec![4, 5, 6],
    };
    let hash = hex::encode(Sha1::digest([4u8, 5, 6]));
    let found = resolve_rom(
        &String::from("rom.bin"),
        &hash,
        &vec![other, named],
    )
    .unwrap();
    // The name match wins even though the other file's hash matches.
    assert_eq!(found, vec![1, 2, 3]);
}

#[test]
fn rom_resolves_by_hash_when_name_differs() {
    let data: Vec<u8> = vec![0xde, 0xad, 0xbe, 0xef];
    let hash = hex::encode(Sha1::digest(&data));
    let files = vec![
        RomFile {
            name: String::from("unrelated.bin"),
            bytes: vec![9, 9, 9],
        },
        RomFile {
            name: String::from("misnamed.bin"),
            bytes: data.clone(),
        },
    ];
    let found = resolve_rom(&String::from("rom.bin"), &hash, &files).unwrap();
    assert_eq!(found, data);
}

#[test]
fn rom_resolution_fails_without_any_match() {
    let files = vec![RomFile {
        name: String::from("a.bin"),
        bytes: vec![1],
    }];
    let err = resolve_rom(
        &String::from("rom.bin"),
        &String::from("da39a3ee5e6b4b0d3255bfef95601890afd80708"),
        &files,
    )
    .unwrap_err();
    assert_eq!(err, EncodeError::RomNotFound);
}

#[test]
fn encode_reports_port_error_before_rom_error() {
    let platform = PlatformSpecification {
        device: Device {
            cpu: CpuType::SM510,
            screen: Screen::Single {
                width: 16,
                height: 16,
            },
        },
        port_map: PortMap {
            ports: vec![Port::S {
                index: 9,
                slots: [None, None, None, None],
            }],
            ground_last_index: None,
        },
        rom: Rom {
            filename: String::from("rom.bin"),
            sha1_hex: String::from("0000000000000000000000000000000000000000"),
        },
        metadata: Metadata {
            name: String::from("X"),
            company: String::from("Y"),
        },
    };
    let background: Vec<u8> = vec![0; 16];
    let mask: Vec<u8> = vec![0; 16];
    let grid: Vec<Option<u16>> = vec![None; 4];
    // The config stage runs first, so its error wins over the missing ROM.
    let err = encode(
        &background,
        &mask,
        &grid,
        &platform,
        &vec![],
        &Vec::new(),
        2,
        2,
    )
    .unwrap_err();
    assert_eq!(err, EncodeError::PortIndexOutOfBounds { index: 9 });
}

#[test]
fn encode_assembles_all_blocks_in_order() {
    let width = 2;
    let height = 2;
    let background: Vec<u8> = (0..16).collect();
    let mask: Vec<u8> = (16..32).collect();
    let grid: Vec<Option<u16>> = vec![Some(1), Some(1), None, Some(2)];
    let rom_bytes: Vec<u8> = vec![0xaa, 0xbb];
    let platform = PlatformSpecification {
        device: Device {
            cpu: CpuType::SM510,
            screen: Screen::Single {
                width: 80,
                height: 64,
            },
        },
        port_map: PortMap {
            ports: vec![],
            ground_last_index: None,
        },
        rom: Rom {
            filename: String::from("rom.bin"),
            sha1_hex: String::from("0000000000000000000000000000000000000000"),
        },
        metadata: Metadata {
            name: String::from("Game & Watch: Ball"),
            company: String::from("Nintendo"),
        },
    };
    let files = vec![RomFile {
        name: String::from("rom.bin"),
        bytes: rom_bytes.clone(),
    }];
    let (image, name) = encode(
        &background,
        &mask,
        &grid,
        &platform,
        &files,
        &Vec::new(),
        width,
        height,
    )
    .unwrap();
    assert_eq!(name, "Ball.gnw");
    let mask_capacity = 5 * 52 * height;
    assert_eq!(image.len(), 256 + 6 * width * height + mask_capacity + rom_bytes.len());
    // Preamble.
    assert_eq!(&image[0..3], &[1, 0, 0]);
    // Pixel block: background and mask channels interleaved, alpha dropped.
    assert_eq!(&image[256..262], &[0, 16, 1, 17, 2, 18]);
    // Mask block: first entry is the run of id 1 on row 0.
    let entry = &image[256 + 24..256 + 24 + 5];
    assert_eq!(
        entry_from_bytes(entry[0], entry[1], entry[2], entry[3], entry[4]),
        (1, 0, 0, 2)
    );
    // ROM bytes close the image.
    assert_eq!(&image[image.len() - 2..], &[0xaa, 0xbb]);
}
