use wad_textures::definition::{
    read_definition, read_texture_definitions, uppercase_byte, DecodeError, PatchPlacement,
    TextureDefinition, MAX_DIMENSION,
};
use wad_textures::le::{read_i16_le, read_i32_le};

fn record(name: &[u8; 8], width: i16, height: i16, placements: &[(i16, i16, i16)]) -> Vec<u8> {
    let mut bytes = Vec::new();
    bytes.extend_from_slice(name);
    bytes.extend_from_slice(&0x55aa_55aau32.to_le_bytes());
    bytes.extend_from_slice(&width.to_le_bytes());
    bytes.extend_from_slice(&height.to_le_bytes());
    bytes.extend_from_slice(&0x0bad_f00du32.to_le_bytes());
    bytes.extend_from_slice(&(placements.len() as i16).to_le_bytes());
    for &(origin_x, origin_y, patch) in placements {
        bytes.extend_from_slice(&origin_x.to_le_bytes());
        bytes.extend_from_slice(&origin_y.to_le_bytes());
        bytes.extend_from_slice(&patch.to_le_bytes());
        bytes.extend_from_slice(&0x1111i16.to_le_bytes());
        bytes.extend_from_slice(&0x2222i16.to_le_bytes());
    }
    bytes
}

fn section(records: &[Vec<u8>]) -> Vec<u8> {
    let mut bytes = Vec::new();
    bytes.extend_from_slice(&(records.len() as i32).to_le_bytes());
    let mut offset = 4 + 4 * records.len();
    for r in records {
        bytes.extend_from_slice(&(offset as i32).to_le_bytes());
        offset += r.len();
    }
    for r in records {
        bytes.extend_from_slice(r);
    }
    bytes
}

fn placement(origin_x: i16, origin_y: i16, patch_index: i16) -> PatchPlacement {
    PatchPlacement { origin_x, origin_y, patch_index }
}

#[test]
fn i16_is_read_low_byte_first() {
    let bytes = [0x34u8, 0x12, 0xff, 0xff, 0x00, 0x80];
    assert_eq!(read_i16_le(&bytes, 0), Some(0x1234));
    assert_eq!(read_i16_le(&bytes, 1), Some(-238));
    assert_eq!(read_i16_le(&bytes, 2), Some(-1));
    assert_eq!(read_i16_le(&bytes, 4), Some(i16::MIN));
}

#[test]
fn i16_past_the_end_is_none() {
    let bytes = [0x34u8, 0x12, 0xff];
    assert_eq!(read_i16_le(&bytes, 1), Some(-238));
    assert_eq!(read_i16_le(&bytes, 2), None);
    assert_eq!(read_i16_le(&bytes, 3), None);
    assert_eq!(read_i16_le(&bytes, usize::MAX), None);
    assert_eq!(read_i16_le(&[], 0), None);
    assert_eq!(read_i16_le(&[7], 0), None);
}

#[test]
fn i32_is_read_low_byte_first() {
    let bytes = [0x78u8, 0x56, 0x34, 0x12, 0xff, 0xff, 0xff, 0x7f, 0x00, 0x00, 0x00, 0x80];
    assert_eq!(read_i32_le(&bytes, 0), Some(0x1234_5678));
    assert_eq!(read_i32_le(&bytes, 1), Some(-15_584_170));
    assert_eq!(read_i32_le(&bytes, 4), Some(i32::MAX));
    assert_eq!(read_i32_le(&bytes, 8), Some(i32::MIN));
    assert_eq!(read_i32_le(&[0xfe, 0xff, 0xff, 0xff], 0), Some(-2));
}

#[test]
fn i32_past_the_end_is_none() {
    let bytes = [1u8, 2, 3, 4, 5];
    assert_eq!(read_i32_le(&bytes, 1), Some(0x0504_0302));
    assert_eq!(read_i32_le(&bytes, 2), None);
    assert_eq!(read_i32_le(&bytes, usize::MAX), None);
    assert_eq!(read_i32_le(&[1, 2, 3], 0), None);
}

#[test]
fn uppercase_touches_only_lower_case_letters() {
    assert_eq!(uppercase_byte(b'a'), b'A');
    assert_eq!(uppercase_byte(b'z'), b'Z');
    assert_eq!(uppercase_byte(b'm'), b'M');
    assert_eq!(uppercase_byte(b'A'), b'A');
    assert_eq!(uppercase_byte(b'`'), b'`');
    assert_eq!(uppercase_byte(b'{'), b'{');
    assert_eq!(uppercase_byte(b'7'), b'7');
    assert_eq!(uppercase_byte(0), 0);
    assert_eq!(uppercase_byte(0xe9), 0xe9);
    for b in 0..=255u8 {
        assert_eq!(uppercase_byte(b), b.to_ascii_uppercase());
    }
}

#[test]
fn section_without_definitions_yields_none() {
    let list = read_texture_definitions(&[0, 0, 0, 0]).unwrap();
    assert!(list.is_empty());
    let list = read_texture_definitions(&[0, 0, 0, 0, 9, 9, 9]).unwrap();
    assert!(list.is_empty());
}

#[test]
fn one_record_is_decoded_field_by_field() {
    let bytes = section(&[record(b"Wall_1a\0", 64, 128, &[(-3, 7, 2), (16, -8, 0)])]);
    let list = read_texture_definitions(&bytes).unwrap();
    assert_eq!(list.len(), 1);
    assert_eq!(list[0].name(), *b"WALL_1A\0");
    assert_eq!(list[0].width(), 64);
    assert_eq!(list[0].height(), 128);
    assert_eq!(list[0].placements(), &vec![placement(-3, 7, 2), placement(16, -8, 0)]);
}

#[test]
fn as_many_definitions_as_the_count_in_table_order() {
    let bytes = section(&[
        record(b"FIRST\0\0\0", 8, 8, &[(0, 0, 0)]),
        record(b"second\0\0", 16, 4, &[]),
        record(b"THIRD\0\0\0", 1, 2, &[(1, 2, 3), (4, 5, 6), (7, 8, 9)]),
    ]);
    let list = read_texture_definitions(&bytes).unwrap();
    assert_eq!(list.len(), 3);
    assert_eq!(list[0].name(), *b"FIRST\0\0\0");
    assert_eq!(list[1].name(), *b"SECOND\0\0");
    assert_eq!(list[2].name(), *b"THIRD\0\0\0");
    assert_eq!(list[1].width(), 16);
    assert_eq!(list[1].height(), 4);
    assert!(list[1].placements().is_empty());
    assert_eq!(list[2].placements().len(), 3);
    assert_eq!(list[2].placements()[2], placement(7, 8, 9));
}

#[test]
fn offsets_may_be_unsorted_unaligned_and_apart() {
    let a = record(b"AAAAAAAA", 2, 3, &[(1, 1, 1)]);
    let b = record(b"BBBBBBBB", 4, 5, &[]);
    let mut bytes = Vec::new();
    bytes.extend_from_slice(&2i32.to_le_bytes());
    let at_b = 4 + 8 + 1;
    let at_a = at_b + b.len() + 3;
    bytes.extend_from_slice(&(at_a as i32).to_le_bytes());
    bytes.extend_from_slice(&(at_b as i32).to_le_bytes());
    bytes.push(0xee);
    bytes.extend_from_slice(&b);
    bytes.extend_from_slice(&[0xee, 0xee, 0xee]);
    bytes.extend_from_slice(&a);
    assert_eq!(at_b % 2, 1);
    assert_eq!(at_a % 4, 2);
    let list = read_texture_definitions(&bytes).unwrap();
    assert_eq!(list.len(), 2);
    assert_eq!(list[0].name(), *b"AAAAAAAA");
    assert_eq!(list[0].width(), 2);
    assert_eq!(list[0].placements(), &vec![placement(1, 1, 1)]);
    assert_eq!(list[1].name(), *b"BBBBBBBB");
    assert_eq!(list[1].height(), 5);
}

#[test]
fn two_offsets_may_name_one_record() {
    let a = record(b"SAME\0\0\0\0", 2, 3, &[]);
    let mut bytes = Vec::new();
    bytes.extend_from_slice(&2i32.to_le_bytes());
    bytes.extend_from_slice(&12i32.to_le_bytes());
    bytes.extend_from_slice(&12i32.to_le_bytes());
    bytes.extend_from_slice(&a);
    let list = read_texture_definitions(&bytes).unwrap();
    assert_eq!(list.len(), 2);
    assert_eq!(list[0].name(), list[1].name());
}

#[test]
fn section_shorter_than_its_count_is_malformed() {
    assert_eq!(read_texture_definitions(&[]).unwrap_err(), DecodeError::Malformed);
    assert_eq!(read_texture_definitions(&[0, 0, 0]).unwrap_err(), DecodeError::Malformed);
}

#[test]
fn negative_count_is_malformed() {
    let bytes = (-1i32).to_le_bytes();
    assert_eq!(read_texture_definitions(&bytes).unwrap_err(), DecodeError::Malformed);
    let mut bytes = i32::MIN.to_le_bytes().to_vec();
    bytes.extend_from_slice(&[0; 64]);
    assert_eq!(read_texture_definitions(&bytes).unwrap_err(), DecodeError::Malformed);
}

#[test]
fn offset_table_past_the_end_is_malformed() {
    let mut bytes = 2i32.to_le_bytes().to_vec();
    bytes.extend_from_slice(&8i32.to_le_bytes());
    assert_eq!(read_texture_definitions(&bytes).unwrap_err(), DecodeError::Malformed);
    let bytes = i32::MAX.to_le_bytes();
    assert_eq!(read_texture_definitions(&bytes).unwrap_err(), DecodeError::Malformed);
}

#[test]
fn offset_past_the_end_is_malformed() {
    let mut bytes = section(&[record(b"A\0\0\0\0\0\0\0", 1, 1, &[])]);
    let len = bytes.len() as i32;
    bytes[4..8].copy_from_slice(&len.to_le_bytes());
    assert_eq!(read_texture_definitions(&bytes).unwrap_err(), DecodeError::Malformed);
    bytes[4..8].copy_from_slice(&i32::MAX.to_le_bytes());
    assert_eq!(read_texture_definitions(&bytes).unwrap_err(), DecodeError::Malformed);
    bytes[4..8].copy_from_slice(&9i32.to_le_bytes());
    assert_eq!(read_texture_definitions(&bytes).unwrap_err(), DecodeError::Malformed);
}

#[test]
fn negative_offset_is_malformed() {
    let mut bytes = section(&[record(b"A\0\0\0\0\0\0\0", 1, 1, &[])]);
    bytes[4..8].copy_from_slice(&(-1i32).to_le_bytes());
    assert_eq!(read_texture_definitions(&bytes).unwrap_err(), DecodeError::Malformed);
}

#[test]
fn record_cut_short_is_malformed() {
    let full = section(&[record(b"A\0\0\0\0\0\0\0", 1, 1, &[(0, 0, 0), (1, 1, 1)])]);
    assert!(read_texture_definitions(&full).is_ok());
    for cut in 8..full.len() {
        assert_eq!(
            read_texture_definitions(&full[..cut]).unwrap_err(),
            DecodeError::Malformed
        );
    }
}

#[test]
fn one_bad_record_fails_the_whole_section() {
    let mut bytes = section(&[
        record(b"GOOD\0\0\0\0", 1, 1, &[]),
        record(b"BAD\0\0\0\0\0", 1, 1, &[]),
    ]);
    let last = bytes.len() - 2;
    bytes[last..].copy_from_slice(&3i16.to_le_bytes());
    assert_eq!(read_texture_definitions(&bytes).unwrap_err(), DecodeError::Malformed);
}

#[test]
fn negative_sizes_and_counts_are_malformed() {
    let good = section(&[record(b"A\0\0\0\0\0\0\0", 0, 0, &[])]);
    assert!(read_texture_definitions(&good).is_ok());
    let bytes = section(&[record(b"A\0\0\0\0\0\0\0", -1, 1, &[])]);
    assert_eq!(read_texture_definitions(&bytes).unwrap_err(), DecodeError::Malformed);
    let bytes = section(&[record(b"A\0\0\0\0\0\0\0", 1, -1, &[])]);
    assert_eq!(read_texture_definitions(&bytes).unwrap_err(), DecodeError::Malformed);
    let mut bytes = section(&[record(b"A\0\0\0\0\0\0\0", 1, 1, &[])]);
    let last = bytes.len() - 2;
    bytes[last..].copy_from_slice(&(-1i16).to_le_bytes());
    assert_eq!(read_texture_definitions(&bytes).unwrap_err(), DecodeError::Malformed);
}

#[test]
fn largest_declared_size_is_accepted() {
    let bytes = section(&[record(b"HUGE\0\0\0\0", i16::MAX, i16::MAX, &[])]);
    let list = read_texture_definitions(&bytes).unwrap();
    assert_eq!(list[0].width(), MAX_DIMENSION);
    assert_eq!(list[0].height(), 32767);
}

#[test]
fn single_record_is_read_at_its_offset() {
    let mut bytes = vec![0xabu8; 5];
    bytes.extend_from_slice(&record(b"lower\0\0\0", 3, 9, &[(-1, -2, -3)]));
    let definition = read_definition(&bytes, 5).unwrap();
    assert_eq!(definition.name(), *b"LOWER\0\0\0");
    assert_eq!(definition.width(), 3);
    assert_eq!(definition.height(), 9);
    assert_eq!(definition.placements(), &vec![placement(-1, -2, -3)]);
    assert_eq!(read_definition(&bytes, 6).unwrap_err(), DecodeError::Malformed);
    assert_eq!(read_definition(&bytes, usize::MAX).unwrap_err(), DecodeError::Malformed);
    assert_eq!(read_definition(&[], 0).unwrap_err(), DecodeError::Malformed);
}

#[test]
fn name_bytes_that_are_no_letters_stay() {
    let bytes = section(&[record(&[b'a', 0xff, b'-', b'z', 0, 0x80, b'Q', b'1'], 1, 1, &[])]);
    let list = read_texture_definitions(&bytes).unwrap();
    assert_eq!(list[0].name(), [b'A', 0xff, b'-', b'Z', 0, 0x80, b'Q', b'1']);
}

#[test]
fn definition_is_built_from_its_parts() {
    let d = TextureDefinition::new(*b"PARTS\0\0\0", 7, 9, vec![placement(1, 2, 3)]).unwrap();
    assert_eq!(d.name(), *b"PARTS\0\0\0");
    assert_eq!(d.width(), 7);
    assert_eq!(d.height(), 9);
    assert_eq!(d.placements(), &vec![placement(1, 2, 3)]);
    assert!(TextureDefinition::new(*b"PARTS\0\0\0", MAX_DIMENSION, MAX_DIMENSION, vec![]).is_some());
    assert!(TextureDefinition::new(*b"PARTS\0\0\0", MAX_DIMENSION + 1, 1, vec![]).is_none());
    assert!(TextureDefinition::new(*b"PARTS\0\0\0", 1, MAX_DIMENSION + 1, vec![]).is_none());
}

#[test]
fn decoding_twice_gives_the_same_definitions() {
    let bytes = section(&[
        record(b"ONE\0\0\0\0\0", 8, 8, &[(0, 0, 0), (4, 4, 1)]),
        record(b"TWO\0\0\0\0\0", 2, 2, &[]),
    ]);
    let first = read_texture_definitions(&bytes).unwrap();
    let second = read_texture_definitions(&bytes).unwrap();
    assert_eq!(first.len(), second.len());
    for (a, b) in first.iter().zip(second.iter()) {
        assert_eq!(a.name(), b.name());
        assert_eq!(a.width(), b.width());
        assert_eq!(a.height(), b.height());
        assert_eq!(a.placements(), b.placements());
    }
}
