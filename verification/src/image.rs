//! The image assembler: concatenates, in exact order, the 256-byte
//! preamble, the interleaved pixel block, the mask RLE block and the ROM
//! bytes, and derives the output file name from the display name.

use vstd::prelude::*;
use crate::config::{
    build_config, spec_config_bytes, spec_first_bad_port, spec_bad_port_index, spec_has_bad_port,
};
use crate::errors::EncodeError;
use crate::mask::{build_mask_map, spec_grid_runs, spec_ids_in_range, spec_mask_block};
use crate::naming::{derive_output_name, spec_output_file_name};
use crate::pixels::{pack_pixels, spec_interleaved};
use crate::platform::{spec_screen_height, spec_screen_width, PlatformSpecification};
use crate::rom::{
    resolve_rom, spec_find_hash, spec_find_name, spec_resolved_rom_bytes, RomFile,
};

verus! {

/// The full image: preamble, pixel block, mask block, ROM bytes.
pub open spec fn spec_image_bytes(
    platform: PlatformSpecification,
    revision: Seq<u8>,
    background: Seq<u8>,
    mask: Seq<u8>,
    grid: Seq<Option<u16>>,
    width: int,
    height: int,
    rom: Seq<u8>,
) -> Seq<u8> {
    spec_config_bytes(platform, revision) + spec_interleaved(background, mask) + spec_mask_block(
        grid,
        width,
        height,
    ) + rom
}

/// Encodes one device: preamble, pixel block, mask block and ROM bytes in
/// that exact order, together with the derived output file name. Stages
/// run strictly in sequence, so the first failing stage's error is
/// returned: an out-of-range S-port index, then mask capacity overflow,
/// then an unresolvable ROM.
pub fn encode(
    background_bytes: &Vec<u8>,
    mask_bytes: &Vec<u8>,
    pixels_to_mask_id: &Vec<Option<u16>>,
    platform: &PlatformSpecification,
    rom_files: &Vec<RomFile>,
    revision: &Vec<u8>,
    width: usize,
    height: usize,
) -> (r: Result<(Vec<u8>, String), EncodeError>)
    requires
        width < 1024,
        height < 1024,
        background_bytes@.len() == 4 * ((width as int) * (height as int)),
        mask_bytes@.len() == background_bytes@.len(),
        pixels_to_mask_id@.len() == (width as int) * (height as int),
        spec_ids_in_range(pixels_to_mask_id@),
        spec_screen_width(platform.device.screen) < 1024,
        spec_screen_height(platform.device.screen) < 1024,
        match platform.port_map.ground_last_index {
            Some(g) => g < 255,
            None => true,
        },
    ensures
        match r {
            Ok(out) => {
                &&& !spec_has_bad_port(platform.port_map.ports@)
                &&& spec_grid_runs(pixels_to_mask_id@, width as int, height as int).len() <= 52 * (
                height as int)
                &&& (spec_find_name(rom_files@, platform.rom.filename@, 0) >= 0 || spec_find_hash(
                    rom_files@,
                    platform.rom.sha1_hex@,
                    0,
                ) >= 0)
                &&& out.0@ == spec_image_bytes(
                    *platform,
                    revision@,
                    background_bytes@,
                    mask_bytes@,
                    pixels_to_mask_id@,
                    width as int,
                    height as int,
                    spec_resolved_rom_bytes(
                        rom_files@,
                        platform.rom.filename@,
                        platform.rom.sha1_hex@,
                    ),
                )
                &&& out.1@ == spec_output_file_name(platform.metadata.name@)
            },
            Err(e) => match e {
                EncodeError::PortIndexOutOfBounds { .. } => {
                    &&& spec_has_bad_port(platform.port_map.ports@)
                    &&& e == (EncodeError::PortIndexOutOfBounds {
                        index: spec_bad_port_index(
                            platform.port_map.ports@[spec_first_bad_port(
                                platform.port_map.ports@,
                                0,
                            )],
                        ),
                    })
                },
                EncodeError::MaskCapacityExceeded { .. } => {
                    &&& !spec_has_bad_port(platform.port_map.ports@)
                    &&& spec_grid_runs(pixels_to_mask_id@, width as int, height as int).len() > 52
                        * (height as int)
                    &&& e == (EncodeError::MaskCapacityExceeded {
                        attempted: ((5 * (52 * (height as int)) + 5) as usize),
                        capacity: ((5 * (52 * (height as int))) as usize),
                    })
                },
                EncodeError::RomNotFound => {
                    &&& !spec_has_bad_port(platform.port_map.ports@)
                    &&& spec_grid_runs(pixels_to_mask_id@, width as int, height as int).len() <= 52
                        * (height as int)
                    &&& spec_find_name(rom_files@, platform.rom.filename@, 0) < 0
                    &&& spec_find_hash(rom_files@, platform.rom.sha1_hex@, 0) < 0
                },
            },
        },
{
    let mut config = match build_config(platform, revision) {
        Ok(c) => c,
        Err(e) => {
            return Err(e);
        },
    };

    proof {
        assert(background_bytes@.len() % 4 == 0 && background_bytes@.len() <= usize::MAX as int
            / 2) by (nonlinear_arith)
            requires
                background_bytes@.len() == 4 * ((width as int) * (height as int)),
                0 <= (width as int) < 1024,
                0 <= (height as int) < 1024,
                usize::MAX >= 0xffff_ffff,
        ;
    }
    let mut image_block = pack_pixels(background_bytes, mask_bytes);
    config.append(&mut image_block);

    let mut mask_block = match build_mask_map(pixels_to_mask_id, width, height) {
        Ok(m) => m,
        Err(e) => {
            return Err(e);
        },
    };
    config.append(&mut mask_block);

    let mut rom_data = match resolve_rom(&platform.rom.filename, &platform.rom.sha1_hex, rom_files)
        {
        Ok(d) => d,
        Err(e) => {
            return Err(e);
        },
    };
    config.append(&mut rom_data);

    let name = derive_output_name(&platform.metadata.name);

    proof {
        assert(config@ =~= spec_image_bytes(
            *platform,
            revision@,
            background_bytes@,
            mask_bytes@,
            pixels_to_mask_id@,
            width as int,
            height as int,
            spec_resolved_rom_bytes(rom_files@, platform.rom.filename@, platform.rom.sha1_hex@),
        ));
    }
    Ok((config, name))
}

} // verus!
