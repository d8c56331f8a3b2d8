use wad_sprites::convert::{check_sentinel, convert_all, convert_sprite, file_name, prepare};
use wad_sprites::directory::{ArchiveKind, LumpRecord};
use wad_sprites::error::WadError;
use wad_sprites::name::LumpName;
use wad_sprites::palette::{Palette, TRANSPARENT};
use wad_sprites::usage::ColorUsage;

fn field(name: &str) -> [u8; 8] {
    let mut raw = [0u8; 8];
    raw[..name.len()].copy_from_slice(name.as_bytes());
    raw
}

fn archive(magic: &[u8; 4], lumps: &[(&str, Vec<u8>)]) -> Vec<u8> {
    let mut body: Vec<u8> = Vec::new();
    let mut records: Vec<u8> = Vec::new();
    for (name, data) in lumps {
        records.extend_from_slice(&(12 + body.len() as u32).to_le_bytes());
        records.extend_from_slice(&(data.len() as u32).to_le_bytes());
        records.extend_from_slice(&field(name));
        body.extend_from_slice(data);
    }
    let mut bytes: Vec<u8> = Vec::new();
    bytes.extend_from_slice(magic);
    bytes.extend_from_slice(&(lumps.len() as u32).to_le_bytes());
    bytes.extend_from_slice(&(12 + body.len() as u32).to_le_bytes());
    bytes.extend_from_slice(&body);
    bytes.extend_from_slice(&records);
    bytes
}

fn picture(width: u16, height: u16, columns: &[Vec<(u8, Vec<u8>)>]) -> Vec<u8> {
    assert_eq!(columns.len(), width as usize);
    let mut data: Vec<u8> = Vec::new();
    let mut offsets: Vec<u32> = Vec::new();
    let table_end = 8 + 4 * width as u32;
    for column in columns {
        offsets.push(table_end + data.len() as u32);
        for (top, pixels) in column {
            data.push(*top);
            data.push(pixels.len() as u8);
            data.push(0);
            data.extend_from_slice(pixels);
            data.push(0);
        }
        data.push(255);
    }
    let mut bytes: Vec<u8> = Vec::new();
    bytes.extend_from_slice(&width.to_le_bytes());
    bytes.extend_from_slice(&height.to_le_bytes());
    bytes.extend_from_slice(&[0, 0, 0, 0]);
    for offset in offsets {
        bytes.extend_from_slice(&offset.to_le_bytes());
    }
    bytes.extend_from_slice(&data);
    bytes
}

/// 256 colours, no two alike.
fn colours() -> Vec<u8> {
    let mut table: Vec<u8> = Vec::new();
    for i in 0..256u32 {
        table.extend_from_slice(&[i as u8, (255 - i) as u8, (i * 3 % 256) as u8]);
    }
    table
}

fn two_by_two() -> Vec<u8> {
    picture(2, 2, &[vec![(0, vec![10, 11])], vec![(0, vec![20, 21])]])
}

struct Decoded {
    width: u32,
    height: u32,
    palette: Vec<u8>,
    alpha: Vec<u8>,
    pixels: Vec<u8>,
}

fn decode(stream: &[u8]) -> Decoded {
    let decoder = png::Decoder::new(stream);
    let mut reader = decoder.read_info().unwrap();
    let mut pixels = vec![0u8; reader.output_buffer_size()];
    let frame = reader.next_frame(&mut pixels).unwrap();
    pixels.truncate(frame.buffer_size());
    let info = reader.info();
    assert_eq!(info.color_type, png::ColorType::Indexed);
    assert_eq!(info.bit_depth, png::BitDepth::Eight);
    Decoded {
        width: info.width,
        height: info.height,
        palette: info.palette.as_ref().unwrap().to_vec(),
        alpha: info.trns.as_ref().unwrap().to_vec(),
        pixels,
    }
}

#[test]
fn one_sprite_between_the_markers() {
    let bytes = archive(
        b"IWAD",
        &[
            ("PLAYPAL", colours()),
            ("S_START", vec![]),
            ("TROOA1", two_by_two()),
            ("S_END", vec![]),
        ],
    );
    let run = convert_all(&bytes, false);
    assert_eq!(run.outcome, Ok(()));
    assert_eq!(run.files.len(), 1);
    assert_eq!(run.files[0].name, "TROOA1.png");
    let decoded = decode(&run.files[0].data);
    assert_eq!((decoded.width, decoded.height), (2, 2));
    assert_eq!(decoded.pixels, vec![10, 20, 11, 21]);
    assert!(!decoded.pixels.contains(&TRANSPARENT));
    assert_eq!(decoded.palette, colours());
    assert_eq!(decoded.alpha.len(), 255);
    for (i, alpha) in decoded.alpha.iter().enumerate() {
        assert_eq!(*alpha, if i == 251 { 0 } else { 255 });
    }
}

#[test]
fn one_sprite_scaled() {
    let bytes = archive(
        b"PWAD",
        &[
            ("S_START", vec![]),
            ("TROOA1", two_by_two()),
            ("S_END", vec![]),
            ("PLAYPAL", colours()),
        ],
    );
    let run = convert_all(&bytes, true);
    assert_eq!(run.outcome, Ok(()));
    assert_eq!(run.files.len(), 1);
    let decoded = decode(&run.files[0].data);
    assert_eq!((decoded.width, decoded.height), (10, 12));
    let source = [[10u8, 20], [11, 21]];
    for y in 0..12usize {
        for x in 0..10usize {
            assert_eq!(decoded.pixels[x + y * 10], source[y / 6][x / 5]);
        }
    }
}

#[test]
fn a_column_without_posts_is_transparent_in_the_file() {
    let sprite = picture(2, 3, &[vec![], vec![(1, vec![5])]]);
    let bytes = archive(
        b"IWAD",
        &[("PLAYPAL", colours()), ("S_START", vec![]), ("A", sprite), ("S_END", vec![])],
    );
    let run = convert_all(&bytes, false);
    assert_eq!(run.outcome, Ok(()));
    let decoded = decode(&run.files[0].data);
    assert_eq!(decoded.pixels, vec![251, 251, 251, 5, 251, 251]);
    assert_eq!(decoded.alpha[251], 0);
}

#[test]
fn a_bad_magic_ends_the_run_before_anything_is_read() {
    let bytes = archive(
        b"XWAD",
        &[
            ("PLAYPAL", colours()),
            ("S_START", vec![]),
            ("TROOA1", two_by_two()),
            ("S_END", vec![]),
        ],
    );
    let run = convert_all(&bytes, false);
    assert_eq!(run.outcome, Err(WadError::BadMagic));
    assert!(run.files.is_empty());
    assert_eq!(prepare(&bytes).err(), Some(WadError::BadMagic));
    // the directory is not looked at: it may be anything
    let mut broken = bytes.clone();
    broken[8..12].copy_from_slice(&u32::MAX.to_le_bytes());
    assert_eq!(convert_all(&broken, false).outcome, Err(WadError::BadMagic));
}

#[test]
fn the_transparent_index_among_the_pixels_fails_the_run_at_its_end() {
    let guilty = picture(1, 2, &[vec![(0, vec![1, TRANSPARENT])]]);
    let bytes = archive(
        b"IWAD",
        &[
            ("PLAYPAL", colours()),
            ("S_START", vec![]),
            ("FIRST", guilty),
            ("SECOND", two_by_two()),
            ("S_END", vec![]),
            ("STFACE", two_by_two()),
        ],
    );
    let run = convert_all(&bytes, false);
    assert_eq!(run.outcome, Err(WadError::TransparencyAssumptionViolated));
    // every picture was converted all the same, those after the guilty one too
    let names: Vec<&str> = run.files.iter().map(|f| f.name.as_str()).collect();
    assert_eq!(names, vec!["FIRST.png", "SECOND.png", "STFACE.png"]);
    assert_eq!(decode(&run.files[0].data).pixels, vec![1, 251]);
    assert_eq!(decode(&run.files[2].data).pixels, vec![10, 20, 11, 21]);
}

#[test]
fn the_transparent_index_in_the_last_picture() {
    let guilty = picture(1, 1, &[vec![(0, vec![TRANSPARENT])]]);
    let bytes = archive(
        b"IWAD",
        &[
            ("PLAYPAL", colours()),
            ("S_START", vec![]),
            ("GOOD", two_by_two()),
            ("S_END", vec![]),
            ("STFBAD", guilty),
        ],
    );
    let run = convert_all(&bytes, false);
    assert_eq!(run.outcome, Err(WadError::TransparencyAssumptionViolated));
    assert_eq!(run.files.len(), 2);
}

#[test]
fn an_overwritten_transparent_index_still_fails_the_run() {
    let guilty = picture(1, 1, &[vec![(0, vec![TRANSPARENT]), (0, vec![3])]]);
    let bytes = archive(
        b"IWAD",
        &[("PLAYPAL", colours()), ("S_START", vec![]), ("A", guilty), ("S_END", vec![])],
    );
    let run = convert_all(&bytes, false);
    assert_eq!(run.outcome, Err(WadError::TransparencyAssumptionViolated));
    assert_eq!(decode(&run.files[0].data).pixels, vec![3]);
}

#[test]
fn check_sentinel_looks_for_the_transparent_index() {
    let mut usage = ColorUsage::new();
    assert_eq!(check_sentinel(&usage), Ok(()));
    usage.mark(250);
    usage.mark(252);
    assert_eq!(check_sentinel(&usage), Ok(()));
    usage.mark(TRANSPARENT);
    assert_eq!(check_sentinel(&usage), Err(WadError::TransparencyAssumptionViolated));
}

#[test]
fn a_run_without_a_palette() {
    let bytes =
        archive(b"IWAD", &[("S_START", vec![]), ("TROOA1", two_by_two()), ("S_END", vec![])]);
    let run = convert_all(&bytes, false);
    assert_eq!(run.outcome, Err(WadError::MissingPalette));
    assert!(run.files.is_empty());
    let lower = archive(b"IWAD", &[("playpal", colours())]);
    assert_eq!(convert_all(&lower, false).outcome, Err(WadError::MissingPalette));
}

#[test]
fn a_palette_that_is_cut_short() {
    let bytes = archive(b"IWAD", &[("PLAYPAL", vec![0u8; 767])]);
    assert_eq!(convert_all(&bytes, false).outcome, Err(WadError::Truncated));
    let mut beyond = archive(b"IWAD", &[("PLAYPAL", colours())]);
    let record = beyond.len() - 16;
    beyond[record..record + 4].copy_from_slice(&u32::MAX.to_le_bytes());
    assert_eq!(convert_all(&beyond, false).outcome, Err(WadError::OutOfRange));
}

#[test]
fn the_first_palette_lump_is_the_palette() {
    let mut other = colours();
    other.reverse();
    let bytes = archive(
        b"IWAD",
        &[
            ("PLAYPAL", colours()),
            ("PLAYPAL", other),
            ("S_START", vec![]),
            ("A", two_by_two()),
            ("S_END", vec![]),
        ],
    );
    let run = convert_all(&bytes, false);
    assert_eq!(decode(&run.files[0].data).palette, colours());
}

#[test]
fn faces_are_found_by_their_prefix() {
    let bytes = archive(
        b"IWAD",
        &[
            ("STFST00", picture(1, 1, &[vec![(0, vec![1])]])),
            ("PLAYPAL", colours()),
            ("STBAR", picture(1, 1, &[vec![(0, vec![2])]])),
            ("STFKILL0", picture(1, 1, &[vec![(0, vec![3])]])),
            ("TAIL", vec![0]),
        ],
    );
    let run = convert_all(&bytes, false);
    assert_eq!(run.outcome, Ok(()));
    let names: Vec<&str> = run.files.iter().map(|f| f.name.as_str()).collect();
    assert_eq!(names, vec!["STFST00.png", "STFKILL0.png"]);
    assert_eq!(decode(&run.files[0].data).pixels, vec![1]);
    assert_eq!(decode(&run.files[1].data).pixels, vec![3]);
}

#[test]
fn an_archive_with_nothing_to_convert() {
    let bytes = archive(b"IWAD", &[("PLAYPAL", colours()), ("MAP01", vec![1, 2, 3])]);
    let run = convert_all(&bytes, true);
    assert_eq!(run.outcome, Ok(()));
    assert!(run.files.is_empty());
}

#[test]
fn a_fault_in_the_middle_keeps_the_files_before_it() {
    let broken = picture(1, 1, &[vec![(0, vec![1, 2])]]);
    let bytes = archive(
        b"IWAD",
        &[
            ("PLAYPAL", colours()),
            ("S_START", vec![]),
            ("GOOD", two_by_two()),
            ("BROKEN", broken),
            ("LATER", two_by_two()),
            ("S_END", vec![]),
        ],
    );
    let run = convert_all(&bytes, false);
    assert_eq!(run.outcome, Err(WadError::OutOfRange));
    let names: Vec<&str> = run.files.iter().map(|f| f.name.as_str()).collect();
    assert_eq!(names, vec!["GOOD.png"]);
}

#[test]
fn a_fault_goes_before_the_transparent_index() {
    let guilty = picture(1, 1, &[vec![(0, vec![TRANSPARENT])]]);
    let broken = picture(1, 1, &[vec![(1, vec![1])]]);
    let bytes = archive(
        b"IWAD",
        &[("PLAYPAL", colours()), ("S_START", vec![]), ("A", guilty), ("B", broken), ("S_END", vec![])],
    );
    let run = convert_all(&bytes, false);
    assert_eq!(run.outcome, Err(WadError::OutOfRange));
    assert_eq!(run.files.len(), 1);
}

#[test]
fn a_marker_lump_between_the_markers_is_no_picture() {
    let bytes = archive(
        b"IWAD",
        &[("PLAYPAL", colours()), ("S_START", vec![]), ("EMPTY", vec![]), ("S_END", vec![])],
    );
    // an empty lump stands where the next one begins: the directory is read as a picture
    let run = convert_all(&bytes, false);
    assert!(run.outcome.is_err());
    assert!(run.files.is_empty());
}

#[test]
fn a_picture_without_pixels_cannot_be_encoded() {
    let mut empty = picture(0, 0, &[]);
    empty.push(0);
    let bytes = archive(
        b"IWAD",
        &[("PLAYPAL", colours()), ("S_START", vec![]), ("NONE", empty), ("S_END", vec![])],
    );
    assert_eq!(convert_all(&bytes, false).outcome, Err(WadError::Encode));
    assert_eq!(convert_all(&bytes, true).outcome, Err(WadError::Encode));
}

#[test]
fn prepare_reads_what_the_run_needs() {
    let bytes = archive(
        b"PWAD",
        &[
            ("STFA", two_by_two()),
            ("PLAYPAL", colours()),
            ("S_START", vec![]),
            ("A", two_by_two()),
            ("B", two_by_two()),
            ("S_END", vec![]),
        ],
    );
    let plan = prepare(&bytes).unwrap();
    assert_eq!(plan.header.kind, ArchiveKind::Pwad);
    assert_eq!(plan.header.lump_count, 6);
    assert_eq!(plan.lumps.len(), 6);
    assert_eq!(plan.palette.as_bytes(), &colours()[..]);
    assert_eq!(plan.chosen, vec![3, 4, 0]);
}

#[test]
fn convert_sprite_converts_one_lump() {
    let mut bytes = vec![0u8; 7];
    bytes.extend_from_slice(&two_by_two());
    bytes.push(0);
    let lump = LumpRecord { offset: 7, size: 0, name: LumpName::from_text("POSSA1").unwrap() };
    let palette = Palette::new(colours()).unwrap();
    let mut usage = ColorUsage::new();
    let file = convert_sprite(&bytes, &lump, false, &palette, &mut usage).unwrap();
    assert_eq!(file.name, "POSSA1.png");
    assert_eq!(decode(&file.data).pixels, vec![10, 20, 11, 21]);
    assert_eq!(usage.unused().len(), 252);
    let big = convert_sprite(&bytes, &lump, true, &palette, &mut usage).unwrap();
    assert_eq!(big.name, "POSSA1.png");
    assert_eq!(decode(&big.data).width, 10);
    assert_eq!(decode(&big.data).height, 12);
}

#[test]
fn convert_sprite_marks_what_it_decoded_even_where_it_cannot_encode() {
    let mut bytes = picture(1, 0, &[vec![(0, vec![])]]);
    bytes.push(0);
    let lump = LumpRecord { offset: 0, size: 0, name: LumpName::from_text("X").unwrap() };
    let palette = Palette::new(colours()).unwrap();
    let mut usage = ColorUsage::new();
    usage.mark(4);
    assert_eq!(
        convert_sprite(&bytes, &lump, false, &palette, &mut usage).err(),
        Some(WadError::Encode)
    );
    assert!(usage.contains(4));
    assert_eq!(usage.unused().len(), 255);
}

#[test]
fn file_names_end_in_png() {
    assert_eq!(file_name(&LumpName::from_text("TROOA1").unwrap()), "TROOA1.png");
    assert_eq!(file_name(&LumpName::from_text("STFST000").unwrap()), "STFST000.png");
    assert_eq!(file_name(&LumpName::from_text("").unwrap()), ".png");
}

#[test]
fn a_run_is_repeatable() {
    let bytes = archive(
        b"IWAD",
        &[
            ("PLAYPAL", colours()),
            ("S_START", vec![]),
            ("A", two_by_two()),
            ("S_END", vec![]),
            ("STFA", picture(1, 3, &[vec![(1, vec![9])]])),
        ],
    );
    let first = convert_all(&bytes, true);
    let second = convert_all(&bytes, true);
    assert_eq!(first.outcome, second.outcome);
    assert_eq!(first.files.len(), second.files.len());
    for (a, b) in first.files.iter().zip(second.files.iter()) {
        assert_eq!(a.name, b.name);
        assert_eq!(a.data, b.data);
    }
}

#[test]
fn the_run_tells_which_indices_were_used() {
    let bytes = archive(
        b"IWAD",
        &[
            ("PLAYPAL", colours()),
            ("S_START", vec![]),
            ("A", two_by_two()),
            ("S_END", vec![]),
            ("STFA", picture(1, 3, &[vec![(1, vec![9])]])),
        ],
    );
    let run = convert_all(&bytes, false);
    assert_eq!(run.outcome, Ok(()));
    for index in 0..=255u8 {
        assert_eq!(run.usage.contains(index), [9, 10, 11, 20, 21].contains(&index));
    }
    assert_eq!(run.usage.unused().len(), 251);
    assert!(run.usage.unused().contains(&TRANSPARENT));
}

#[test]
fn a_picture_that_cannot_be_decoded_adds_nothing_to_the_usage() {
    let broken = picture(1, 2, &[vec![(0, vec![30]), (1, vec![31, 32])]]);
    let bytes = archive(
        b"IWAD",
        &[
            ("PLAYPAL", colours()),
            ("S_START", vec![]),
            ("GOOD", two_by_two()),
            ("BROKEN", broken),
            ("S_END", vec![]),
        ],
    );
    let run = convert_all(&bytes, false);
    assert_eq!(run.outcome, Err(WadError::OutOfRange));
    for index in 0..=255u8 {
        assert_eq!(run.usage.contains(index), [10, 11, 20, 21].contains(&index));
    }
}

#[test]
fn a_picture_that_cannot_be_encoded_ends_the_run() {
    let mut flat = picture(1, 0, &[vec![(0, vec![])]]);
    flat.push(0);
    let bytes = archive(
        b"IWAD",
        &[
            ("PLAYPAL", colours()),
            ("S_START", vec![]),
            ("GOOD", two_by_two()),
            ("FLAT", flat),
            ("LATER", picture(1, 1, &[vec![(0, vec![77])]])),
            ("S_END", vec![]),
        ],
    );
    let run = convert_all(&bytes, false);
    assert_eq!(run.outcome, Err(WadError::Encode));
    assert_eq!(run.files.len(), 1);
    for index in 0..=255u8 {
        assert_eq!(run.usage.contains(index), [10, 11, 20, 21].contains(&index));
    }
}

#[test]
fn a_run_that_fails_at_the_start_has_used_nothing() {
    let run = convert_all(b"XWAD", false);
    assert_eq!(run.outcome, Err(WadError::Truncated));
    assert!(run.files.is_empty());
    assert_eq!(run.usage.unused().len(), 256);
    let run = convert_all(&[], true);
    assert_eq!(run.outcome, Err(WadError::Truncated));
}
