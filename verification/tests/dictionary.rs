use c3d::entry::{at_end, element_count, name_size, read_description, read_entry, read_text, Entry};
use c3d::section::{insert_group, rekey, stage, upsert_param, walk};
use c3d::{
    AnalogSample, C3dAdapter, GroupFormat, ParamData, ParamValue, ParameterBlock,
    ParameterBlockHeader, ParameterFormat, ParserError, Quantity,
};

// ---- building byte sources ----

#[allow(dead_code)]
fn header_block(
    points: u16,
    analog: u16,
    first: u16,
    last: u16,
    scale: f32,
    data_start: u16,
) -> Vec<u8> {
    let mut h = vec![0u8; 512];
    h[0] = 2;
    h[1] = 0x50;
    h[2..4].copy_from_slice(&points.to_le_bytes());
    h[4..6].copy_from_slice(&analog.to_le_bytes());
    h[6..8].copy_from_slice(&first.to_le_bytes());
    h[8..10].copy_from_slice(&last.to_le_bytes());
    h[12..16].copy_from_slice(&scale.to_le_bytes());
    h[16..18].copy_from_slice(&data_start.to_le_bytes());
    h
}

#[allow(dead_code)]
fn group_entry(id: u8, name: &str, description: &str, locked: bool) -> Vec<u8> {
    let mut e = Vec::new();
    let n = name.len() as i8;
    e.push((if locked { -n } else { n }) as u8);
    e.push((-(id as i16)) as i8 as u8);
    e.extend_from_slice(name.as_bytes());
    let offset = (2 + 1 + description.len()) as i16;
    e.extend_from_slice(&offset.to_le_bytes());
    e.push(description.len() as u8);
    e.extend_from_slice(description.as_bytes());
    e
}

#[allow(dead_code)]
fn param_entry(
    group: u8,
    name: &str,
    width: i8,
    dims: &[u8],
    payload: &[u8],
    description: &str,
    locked: bool,
) -> Vec<u8> {
    let mut e = Vec::new();
    let n = name.len() as i8;
    e.push((if locked { -n } else { n }) as u8);
    e.push(group);
    e.extend_from_slice(name.as_bytes());
    let offset = (2 + 1 + 1 + dims.len() + payload.len() + 1 + description.len()) as i16;
    e.extend_from_slice(&offset.to_le_bytes());
    e.push(width as u8);
    e.push(dims.len() as u8);
    e.extend_from_slice(dims);
    e.extend_from_slice(payload);
    e.push(description.len() as u8);
    e.extend_from_slice(description.as_bytes());
    e
}

#[allow(dead_code)]
fn section(entries: &[Vec<u8>], blocks: u8) -> Vec<u8> {
    let mut s = vec![0u8, 0, blocks, 0x54];
    for e in entries {
        s.extend_from_slice(e);
    }
    assert!(s.len() <= blocks as usize * 512);
    s.resize(blocks as usize * 512, 0);
    s
}

#[allow(dead_code)]
fn i16s(values: &[i16]) -> Vec<u8> {
    values.iter().flat_map(|v| v.to_le_bytes()).collect()
}

#[allow(dead_code)]
fn u16s(values: &[u16]) -> Vec<u8> {
    values.iter().flat_map(|v| v.to_le_bytes()).collect()
}

#[allow(dead_code)]
fn f32s(values: &[f32]) -> Vec<u8> {
    values.iter().flat_map(|v| v.to_le_bytes()).collect()
}

#[allow(dead_code)]
fn source(header: Vec<u8>, section: Vec<u8>, data: Vec<u8>) -> Vec<u8> {
    let mut all = header;
    all.extend_from_slice(&section);
    all.extend_from_slice(&data);
    all
}

#[allow(dead_code)]
fn open(bytes: Vec<u8>) -> Result<C3dAdapter, ParserError> {
    C3dAdapter::new(bytes)?.construct()
}

// ---- the arithmetic that the library leaves to its caller ----

#[allow(dead_code)]
fn number(q: Quantity, scale: f32) -> f32 {
    match q {
        Quantity::Real(bits) => f32::from_bits(bits),
        Quantity::Scaled(n) => n as f32 * scale.abs(),
        Quantity::Whole(n) => n as f32,
        Quantity::Occluded => -0.01,
    }
}

#[allow(dead_code)]
fn point(p: &[Quantity; 5], scale: f32) -> [f32; 5] {
    [
        number(p[0], scale),
        number(p[1], scale),
        number(p[2], scale),
        number(p[3], scale),
        number(p[4], scale),
    ]
}

#[allow(dead_code)]
fn sample(s: &AnalogSample, scale: f32) -> f32 {
    let mut v = number(s.raw, scale);
    if let Some(offset) = s.offset {
        v -= offset as f32;
    }
    if let Some(bits) = s.scale {
        v *= f32::from_bits(bits);
    }
    if let Some(bits) = s.gen_scale {
        v *= f32::from_bits(bits);
    }
    v
}


fn dictionary(entries: &[Vec<u8>]) -> Result<ParameterBlock, ParserError> {
    ParameterBlock::from_bytes(&section(entries, 2))
}

fn plain_param(group: i8, name: &str) -> ParameterFormat {
    ParameterFormat {
        name_chars_size: name.len() as u8,
        id: group,
        name: name.to_string(),
        offset: 0,
        data_length: 1,
        num_dimensions: 0,
        dimensions: vec![],
        parameter_data: ParamData { values: vec![ParamValue::Byte(0)], locked: false },
        desc_chars_size: 0,
        description: String::new(),
    }
}

fn plain_group(id: u8, name: &str) -> GroupFormat {
    GroupFormat {
        id,
        name: name.to_string(),
        description: String::new(),
        locked: false,
        params: vec![],
    }
}

#[test]
fn the_first_four_bytes_of_a_section() {
    assert_eq!(ParameterBlockHeader::from_bytes(&[]).err(), Some(ParserError::Truncated));
    assert_eq!(ParameterBlockHeader::from_bytes(&[1, 2, 3]).err(), Some(ParserError::Truncated));
    let header = ParameterBlockHeader::from_bytes(&[1, 2, 3, 4, 5]).unwrap();
    assert_eq!(
        header,
        ParameterBlockHeader {
            reserved_one: 1,
            reserved_two: 2,
            parameter_block_counts: 3,
            magic_word: 4
        }
    );
}

#[test]
fn section_magic_is_required() {
    let mut bytes = section(&[], 1);
    bytes[3] = 0x55;
    assert_eq!(ParameterBlock::from_bytes(&bytes).err(), Some(ParserError::UnmatchMagic));
    bytes[3] = 0x54;
    let block = ParameterBlock::from_bytes(&bytes).unwrap();
    assert_eq!(block.header.magic_word, 0x54);
    assert_eq!(block.header.parameter_block_counts, 1);
    assert!(block.groups.is_empty());
}

#[test]
fn section_must_be_whole() {
    assert_eq!(ParameterBlock::from_bytes(&[]).err(), Some(ParserError::Truncated));
    assert_eq!(ParameterBlock::from_bytes(&[0, 0, 1]).err(), Some(ParserError::Truncated));
    assert_eq!(
        ParameterBlock::from_bytes(&[0, 0, 1, 0x54]).err(),
        Some(ParserError::Truncated)
    );
    let mut bytes = section(&[], 2);
    bytes.truncate(1023);
    assert_eq!(ParameterBlock::from_bytes(&bytes).err(), Some(ParserError::Truncated));
    bytes.push(0);
    assert!(ParameterBlock::from_bytes(&bytes).is_ok());
    // the magic byte is looked at before the length
    assert_eq!(
        ParameterBlock::from_bytes(&[0, 0, 1, 0x53]).err(),
        Some(ParserError::UnmatchMagic)
    );
}

#[test]
fn section_of_no_blocks_is_malformed() {
    let mut bytes = section(&[], 1);
    bytes[2] = 0;
    assert_eq!(
        ParameterBlock::from_bytes(&bytes).err(),
        Some(ParserError::ParseParameterError)
    );
}

#[test]
fn bytes_after_the_section_are_not_read() {
    let mut bytes = section(&[group_entry(1, "POINT", "", false)], 1);
    bytes.extend_from_slice(&group_entry(2, "ANALOG", "", false));
    let block = ParameterBlock::from_bytes(&bytes).unwrap();
    assert_eq!(block.groups.len(), 1);
}

#[test]
fn groups_and_parameters_are_filed() {
    let block = dictionary(&[
        group_entry(1, "POINT", "3-D points", true),
        param_entry(1, "USED", 2, &[], &i16s(&[26]), "number of points", false),
        param_entry(1, "LABELS", -1, &[4, 2], b"LASIRASI", "names", true),
        group_entry(2, "ANALOG", "", false),
        param_entry(2, "GEN_SCALE", 4, &[], &f32s(&[0.5]), "", false),
        param_entry(2, "BITS", 1, &[3], &[1, 2, 3], "x", false),
    ])
    .unwrap();
    assert_eq!(block.groups.len(), 2);
    let point = &block.groups[0];
    assert_eq!(point.id, 1);
    assert_eq!(point.name, "POINT");
    assert_eq!(point.description, "3-D points");
    assert!(point.locked);
    assert_eq!(point.params.len(), 2);
    let used = &point.params[0];
    assert_eq!(used.name, "USED");
    assert_eq!(used.name_chars_size, 4);
    assert_eq!(used.id, 1);
    assert_eq!(used.offset, 2 + 1 + 1 + 2 + 1 + 16);
    assert_eq!(used.data_length, 2);
    assert_eq!(used.num_dimensions, 0);
    assert!(used.dimensions.is_empty());
    assert_eq!(used.parameter_data.values, vec![ParamValue::I16(26)]);
    assert!(!used.parameter_data.locked);
    assert_eq!(used.desc_chars_size, 16);
    assert_eq!(used.description, "number of points");
    let labels = &point.params[1];
    assert_eq!(labels.dimensions, vec![4, 2]);
    assert_eq!(labels.num_dimensions, 2);
    assert_eq!(labels.data_length, -1);
    assert!(labels.parameter_data.locked);
    assert_eq!(
        labels.parameter_data.values,
        b"LASIRASI".iter().map(|b| ParamValue::Char(*b)).collect::<Vec<_>>()
    );
    let analog = &block.groups[1];
    assert_eq!(analog.name, "ANALOG");
    assert!(!analog.locked);
    assert_eq!(
        analog.params[0].parameter_data.values,
        vec![ParamValue::F32(0.5f32.to_bits())]
    );
    assert_eq!(
        analog.params[1].parameter_data.values,
        vec![ParamValue::Byte(1), ParamValue::Byte(2), ParamValue::Byte(3)]
    );
}

#[test]
fn elements_are_as_many_as_the_dimensions_multiply_to() {
    let shapes: [(&[u8], usize); 6] =
        [(&[], 1), (&[5], 5), (&[2, 3], 6), (&[2, 3, 4], 24), (&[0, 7], 0), (&[7, 0, 9], 0)];
    for width in [-1i8, 1, 2, 4] {
        for (dims, count) in shapes {
            let size = width.unsigned_abs() as usize;
            let payload = vec![0x20u8; count * size];
            let block = dictionary(&[
                group_entry(1, "G", "", false),
                param_entry(1, "P", width, dims, &payload, "after", false),
                param_entry(1, "Q", 1, &[], &[9], "", false),
            ])
            .unwrap();
            let p = &block.groups[0].params[0];
            assert_eq!(p.parameter_data.values.len(), count);
            assert_eq!(
                p.parameter_data.values.len(),
                p.dimensions.iter().map(|d| *d as usize).product::<usize>()
            );
            assert_eq!(p.parameter_data.values.len() * size, payload.len());
            assert_eq!(p.description, "after");
            assert_eq!(block.groups[0].params[1].parameter_data.values, vec![ParamValue::Byte(9)]);
        }
    }
}

#[test]
fn element_count_stops_at_the_limit() {
    assert_eq!(element_count(&vec![], 0), None);
    assert_eq!(element_count(&vec![], 1), Some(1));
    assert_eq!(element_count(&vec![2, 3], 6), Some(6));
    assert_eq!(element_count(&vec![2, 3], 5), None);
    assert_eq!(element_count(&vec![255; 200], usize::MAX), None);
    assert_eq!(element_count(&vec![255, 255, 255, 0], 0), Some(0));
    assert_eq!(element_count(&vec![0, 255, 255, 255], 10), Some(0));
    assert_eq!(element_count(&vec![255, 255], 65025), Some(65025));
    assert_eq!(element_count(&vec![255, 255], 65024), None);
}

#[test]
fn a_parameter_may_come_before_its_group() {
    let block = dictionary(&[
        param_entry(7, "RATE", 4, &[], &f32s(&[60.0]), "", false),
        param_entry(7, "USED", 2, &[], &i16s(&[3]), "", false),
        group_entry(7, "POINT", "late", true),
        param_entry(7, "UNITS", -1, &[2], b"mm", "", false),
    ])
    .unwrap();
    assert_eq!(block.groups.len(), 1);
    let group = &block.groups[0];
    assert_eq!(group.id, 7);
    assert_eq!(group.name, "POINT");
    assert_eq!(group.description, "late");
    assert!(group.locked);
    let names: Vec<&str> = group.params.iter().map(|p| p.name.as_str()).collect();
    assert_eq!(names, vec!["RATE", "USED", "UNITS"]);
    assert!(block.get("POINT:RATE").is_some());
}

#[test]
fn parameters_without_a_group_entry_stay_under_the_empty_name() {
    let block = dictionary(&[param_entry(4, "X", 1, &[], &[5], "", false)]).unwrap();
    assert_eq!(block.groups.len(), 1);
    assert_eq!(block.groups[0].name, "");
    assert_eq!(block.groups[0].id, 4);
    assert_eq!(block.get(":X").unwrap().parameter_data.values, vec![ParamValue::Byte(5)]);
}

#[test]
fn names_are_unique_in_their_scope() {
    let block = dictionary(&[
        group_entry(1, "A", "first", false),
        param_entry(1, "P", 1, &[], &[1], "", false),
        param_entry(1, "Q", 1, &[], &[2], "", false),
        param_entry(1, "P", 1, &[], &[3], "", false),
        group_entry(2, "B", "", false),
        param_entry(2, "P", 1, &[], &[4], "", false),
        group_entry(3, "A", "second", false),
        param_entry(3, "R", 1, &[], &[5], "", false),
        group_entry(2, "C", "renamed", false),
    ])
    .unwrap();
    let names: Vec<&str> = block.groups.iter().map(|g| g.name.as_str()).collect();
    assert_eq!(names, vec!["A", "C"]);
    for (i, g) in block.groups.iter().enumerate() {
        for h in &block.groups[i + 1..] {
            assert_ne!(g.name, h.name);
        }
        for (j, p) in g.params.iter().enumerate() {
            for q in &g.params[j + 1..] {
                assert_ne!(p.name, q.name);
            }
        }
    }
    // of two groups of one name the later one stays
    assert_eq!(block.groups[0].id, 3);
    assert_eq!(block.groups[0].description, "second");
    assert!(block.get("A:P").is_none());
    assert_eq!(block.get("A:R").unwrap().parameter_data.values, vec![ParamValue::Byte(5)]);
    // a group entry that comes again renames the group and keeps its parameters
    assert_eq!(block.groups[1].id, 2);
    assert_eq!(block.groups[1].description, "renamed");
    assert_eq!(block.get("C:P").unwrap().parameter_data.values, vec![ParamValue::Byte(4)]);
    assert!(block.get("B:P").is_none());
}

#[test]
fn a_parameter_that_comes_again_takes_the_place_of_the_first() {
    let block = dictionary(&[
        group_entry(1, "A", "", false),
        param_entry(1, "P", 1, &[], &[1], "", false),
        param_entry(1, "Q", 1, &[], &[2], "", false),
        param_entry(1, "P", 2, &[], &i16s(&[300]), "again", true),
    ])
    .unwrap();
    let names: Vec<&str> = block.groups[0].params.iter().map(|p| p.name.as_str()).collect();
    assert_eq!(names, vec!["P", "Q"]);
    let p = block.get("A:P").unwrap();
    assert_eq!(p.parameter_data.values, vec![ParamValue::I16(300)]);
    assert_eq!(p.description, "again");
    assert!(p.parameter_data.locked);
}

#[test]
fn the_offset_leads_to_the_next_entry() {
    // room that no field accounts for lies between the first and the second entry
    let mut first = param_entry(1, "P", 1, &[], &[1], "", false);
    let plain = first.len();
    first.extend_from_slice(&[0xAA; 11]);
    let anchor = 2 + 1;
    let offset = (first.len() - anchor) as i16;
    first[anchor..anchor + 2].copy_from_slice(&offset.to_le_bytes());
    let block = dictionary(&[first, group_entry(1, "G", "", false)]).unwrap();
    assert_eq!(block.groups[0].name, "G");
    assert_eq!(block.groups[0].params[0].offset as usize, plain - anchor + 11);

    // an offset that leads back into the entry is followed as well
    let mut inner = group_entry(2, "H", "", false);
    let mut outer = param_entry(9, "P", 1, &[inner.len() as u8], &inner, "", false);
    let anchor = 2 + 1;
    let to_payload: i16 = 2 + 1 + 1 + 1;
    outer[anchor..anchor + 2].copy_from_slice(&to_payload.to_le_bytes());
    inner.clear();
    let block = dictionary(&[outer]).unwrap();
    let names: Vec<&str> = block.groups.iter().map(|g| g.name.as_str()).collect();
    assert_eq!(names, vec!["", "H"]);
}

#[test]
fn an_offset_of_zero_ends_the_walk() {
    let mut last = group_entry(1, "G", "", false);
    last[3] = 0;
    last[4] = 0;
    let block = dictionary(&[last, group_entry(2, "H", "", false)]).unwrap();
    let names: Vec<&str> = block.groups.iter().map(|g| g.name.as_str()).collect();
    assert_eq!(names, vec!["G"]);
}

#[test]
fn a_zero_byte_ends_the_walk() {
    let block = dictionary(&[
        group_entry(1, "G", "", false),
        vec![0, 5],
        group_entry(2, "H", "", false),
    ])
    .unwrap();
    assert_eq!(block.groups.len(), 1);
    let block = dictionary(&[
        group_entry(1, "G", "", false),
        vec![5, 0],
        group_entry(2, "H", "", false),
    ])
    .unwrap();
    assert_eq!(block.groups.len(), 1);
}

#[test]
fn an_offset_that_leaves_the_section_is_malformed() {
    let mut back = group_entry(1, "G", "", false);
    back[3..5].copy_from_slice(&(-1i16).to_le_bytes());
    assert_eq!(dictionary(&[back]).err(), Some(ParserError::ParseParameterError));

    let mut far = group_entry(1, "G", "", false);
    far[3..5].copy_from_slice(&(1024i16 - 4 - 3 + 1).to_le_bytes());
    assert_eq!(dictionary(&[far]).err(), Some(ParserError::ParseParameterError));

    // the end of the section itself may be reached
    let mut edge = group_entry(1, "G", "", false);
    edge[3..5].copy_from_slice(&(1024i16 - 4 - 3).to_le_bytes());
    assert_eq!(dictionary(&[edge]).unwrap().groups.len(), 1);
}

#[test]
fn a_payload_beyond_the_section_is_malformed() {
    let entry = param_entry(1, "P", 4, &[255, 255], &[], "", false);
    assert_eq!(dictionary(&[entry]).err(), Some(ParserError::ParseParameterError));
    let entry = param_entry(1, "P", 2, &[255; 40], &[], "", false);
    assert_eq!(dictionary(&[entry]).err(), Some(ParserError::ParseParameterError));
}

#[test]
fn a_width_that_names_no_kind_is_malformed() {
    for width in [0i8, 3, -2, 5, 8, -4, 127, -128] {
        let entry = param_entry(1, "P", width, &[1], &[0; 8], "", false);
        assert_eq!(dictionary(&[entry]).err(), Some(ParserError::ParseParameterError), "{width}");
    }
}

#[test]
fn text_that_is_not_utf8_is_malformed() {
    let mut entry = group_entry(1, "GROUP", "", false);
    entry[3] = 0xFF;
    assert_eq!(dictionary(&[entry]).err(), Some(ParserError::ParseParameterError));
    let mut entry = group_entry(1, "G", "about", false);
    let last = entry.len() - 1;
    entry[last] = 0xC3;
    assert_eq!(dictionary(&[entry]).err(), Some(ParserError::ParseParameterError));
    let mut entry = param_entry(1, "P", 1, &[], &[0], "about", false);
    let last = entry.len() - 2;
    entry[last] = 0x80;
    assert_eq!(dictionary(&[entry]).err(), Some(ParserError::ParseParameterError));
}

#[test]
fn an_entry_that_the_section_cuts_off_is_truncated() {
    let whole = param_entry(1, "PARAM", 2, &[2], &i16s(&[1, 2]), "about", false);
    let payload_from = 2 + 5 + 2 + 1 + 1 + 1;
    for keep in 2..whole.len() {
        let mut bytes = vec![0u8, 0, 1, 0x54];
        bytes.resize(512 - keep, 0);
        // a group entry whose offset leads to the cut entry at the very end
        let lead = (512 - keep - 4 - 3) as i16;
        bytes[4] = 1;
        bytes[5] = (-1i8) as u8;
        bytes[6] = b'G';
        bytes[7..9].copy_from_slice(&lead.to_le_bytes());
        bytes[9] = 0;
        bytes.extend_from_slice(&whole[..keep]);
        assert_eq!(bytes.len(), 512);
        let expected = if keep >= payload_from && keep < payload_from + 4 {
            ParserError::ParseParameterError
        } else {
            ParserError::Truncated
        };
        assert_eq!(ParameterBlock::from_bytes(&bytes).err(), Some(expected), "{keep}");
    }
}

#[test]
fn names_and_descriptions_encode_to_the_bytes_they_were_read_from() {
    let name: Vec<u8> = (0x21..0x7F).collect();
    let description: Vec<u8> = (0x01..0x80).collect();
    let name = String::from_utf8(name).unwrap();
    let description = String::from_utf8(description).unwrap();
    let block = dictionary(&[
        group_entry(1, &name, &description, false),
        param_entry(1, &name, 1, &[], &[0], &description, false),
    ])
    .unwrap();
    assert_eq!(block.groups[0].name.as_bytes(), name.as_bytes());
    assert_eq!(block.groups[0].description.as_bytes(), description.as_bytes());
    assert_eq!(block.groups[0].params[0].name.as_bytes(), name.as_bytes());
    assert_eq!(block.groups[0].params[0].description.as_bytes(), description.as_bytes());
    assert_eq!(block.groups[0].params[0].name_chars_size as usize, name.len());
    assert_eq!(block.groups[0].params[0].desc_chars_size as usize, description.len());

    let block = dictionary(&[group_entry(1, "caf\u{e9}", "\u{10000}", false)]).unwrap();
    assert_eq!(block.groups[0].name, "caf\u{e9}");
    assert_eq!(block.groups[0].description, "\u{10000}");
}

#[test]
fn name_lengths_are_signed() {
    assert_eq!(name_size(0), 0);
    assert_eq!(name_size(5), 5);
    assert_eq!(name_size(127), 127);
    assert_eq!(name_size(0x80), 128);
    assert_eq!(name_size(0xFB), 5);
    assert_eq!(name_size(0xFF), 1);
    let long = "N".repeat(128);
    let mut entry = group_entry(1, "", "", false);
    entry[0] = 0x80;
    entry.splice(2..2, long.bytes());
    let block = dictionary(&[entry]).unwrap();
    assert_eq!(block.groups[0].name, long);
    assert!(block.groups[0].locked);
    // group numbers reach 128
    let mut entry = group_entry(1, "G", "", false);
    entry[1] = 0x80;
    assert_eq!(dictionary(&[entry]).unwrap().groups[0].id, 128);
}

#[test]
fn entries_are_read_one_by_one() {
    let mut buf = group_entry(3, "POINT", "about", true);
    let second = buf.len();
    buf.extend_from_slice(&param_entry(3, "USED", 2, &[], &i16s(&[26]), "", false));
    assert!(!at_end(&buf, 0));
    assert!(!at_end(&buf, second));
    assert!(at_end(&buf, buf.len()));
    assert!(at_end(&buf, buf.len() - 1));
    assert!(at_end(&[0, 1, 2], 0));
    assert!(at_end(&[1, 0, 2], 0));
    match read_entry(&buf, 0).unwrap() {
        Entry::Group(g) => {
            assert_eq!((g.id, g.name.as_str(), g.description.as_str(), g.locked), (3, "POINT", "about", true));
            assert!(g.params.is_empty());
        }
        Entry::Param(_) => panic!("a group was written"),
    }
    match read_entry(&buf, second).unwrap() {
        Entry::Param(p) => {
            assert_eq!((p.id, p.name.as_str()), (3, "USED"));
            assert_eq!(p.parameter_data.values, vec![ParamValue::I16(26)]);
        }
        Entry::Group(_) => panic!("a parameter was written"),
    }
    assert_eq!(read_text(&buf, 2, 7).unwrap(), "POINT");
    assert_eq!(read_text(&buf, 2, 2).unwrap(), "");
    assert_eq!(read_text(&[0x41, 0xFF], 0, 2).err(), Some(ParserError::ParseParameterError));
    assert_eq!(read_text(&[0xC3, 0xA9], 0, 2).unwrap(), "\u{e9}");
    assert_eq!(read_description(&buf, 9).unwrap(), (5, "about".to_string()));
    assert_eq!(read_description(&buf, buf.len()).err(), Some(ParserError::Truncated));
    assert_eq!(read_description(&[3, 0x41, 0x42], 0).err(), Some(ParserError::Truncated));
    let staged = walk(&buf).unwrap();
    assert_eq!(staged.len(), 1);
    assert_eq!(staged[0].params.len(), 1);
}

#[test]
fn filing_by_hand() {
    let mut params = vec![plain_param(1, "A"), plain_param(1, "B")];
    let mut again = plain_param(1, "A");
    again.description = "new".to_string();
    upsert_param(&mut params, again);
    upsert_param(&mut params, plain_param(1, "C"));
    let names: Vec<(&str, &str)> =
        params.iter().map(|p| (p.name.as_str(), p.description.as_str())).collect();
    assert_eq!(names, vec![("A", "new"), ("B", ""), ("C", "")]);

    let mut staged = vec![];
    stage(&mut staged, Entry::Param(plain_param(2, "P")));
    stage(&mut staged, Entry::Group(plain_group(1, "ONE")));
    stage(&mut staged, Entry::Param(plain_param(1, "Q")));
    let mut two = plain_group(2, "TWO");
    two.locked = true;
    two.description = "second".to_string();
    stage(&mut staged, Entry::Group(two));
    let seen: Vec<(u8, &str, bool, usize)> =
        staged.iter().map(|g| (g.id, g.name.as_str(), g.locked, g.params.len())).collect();
    assert_eq!(seen, vec![(2, "TWO", true, 1), (1, "ONE", false, 1)]);
    assert_eq!(staged[0].description, "second");

    let mut groups = vec![plain_group(1, "A"), plain_group(2, "B")];
    insert_group(&mut groups, plain_group(3, "A"));
    insert_group(&mut groups, plain_group(4, "C"));
    let seen: Vec<(u8, &str)> = groups.iter().map(|g| (g.id, g.name.as_str())).collect();
    assert_eq!(seen, vec![(3, "A"), (2, "B"), (4, "C")]);

    let filed = rekey(vec![
        plain_group(1, "A"),
        plain_group(2, "B"),
        plain_group(3, "A"),
        plain_group(4, "B"),
        plain_group(5, "C"),
    ]);
    let seen: Vec<(u8, &str)> = filed.iter().map(|g| (g.id, g.name.as_str())).collect();
    assert_eq!(seen, vec![(3, "A"), (4, "B"), (5, "C")]);
}

#[test]
fn keys_are_cut_at_the_first_separator() {
    let block = dictionary(&[
        group_entry(1, "POINT", "", false),
        param_entry(1, "LABELS", 1, &[], &[1], "", false),
        param_entry(1, "A.B", 1, &[], &[2], "", false),
        param_entry(1, "A:B", 1, &[], &[3], "", false),
        group_entry(2, "X.Y", "", false),
        param_entry(2, "P", 1, &[], &[5], "", false),
        group_entry(3, "X", "", false),
        param_entry(3, "Y:P", 1, &[], &[6], "", false),
    ])
    .unwrap();
    assert_eq!(block.groups.len(), 3);
    let value = |key: &str| block.get(key).map(|p| p.parameter_data.values[0]);
    assert_eq!(value("POINT:LABELS"), Some(ParamValue::Byte(1)));
    assert_eq!(value("POINT.LABELS"), Some(ParamValue::Byte(1)));
    assert_eq!(value("POINT:A.B"), Some(ParamValue::Byte(2)));
    assert_eq!(value("POINT.A.B"), Some(ParamValue::Byte(2)));
    assert_eq!(value("POINT:A:B"), Some(ParamValue::Byte(3)));
    assert_eq!(value("POINT.A:B"), Some(ParamValue::Byte(3)));
    assert_eq!(value("POINTLABELS"), None);
    assert_eq!(value("POINT"), None);
    assert_eq!(value(""), None);
    assert_eq!(value(":"), None);
    assert_eq!(value("POINT:"), None);
    assert_eq!(value(":LABELS"), None);
    assert_eq!(value("point:LABELS"), None);
    assert_eq!(value("POINT:labels"), None);
    assert_eq!(value("POINT:LABEL"), None);
    assert_eq!(value("POINT:LABELS "), None);
    assert_eq!(value("ANALOG:LABELS"), None);
    assert_eq!(value("POINT;LABELS"), None);
    // the group's name itself holds a separator: the key is cut inside it
    assert_eq!(value("X.Y:P"), Some(ParamValue::Byte(6)));
    assert_eq!(value("X.Y.P"), None);
    assert_eq!(value("P\u{d6}INT:LABELS"), None);
}

#[test]
fn separators_are_equivalent() {
    let block = dictionary(&[
        group_entry(1, "POINT", "", false),
        param_entry(1, "USED", 2, &[], &i16s(&[1]), "", false),
        param_entry(1, "RATE", 4, &[], &f32s(&[2.0]), "", false),
        group_entry(2, "ANALOG", "", false),
        param_entry(2, "USED", 2, &[], &i16s(&[3]), "", false),
        param_entry(2, "A.B:C", 2, &[], &i16s(&[4]), "", false),
    ])
    .unwrap();
    for group in &block.groups {
        for param in &group.params {
            let colon = block.get(&format!("{}:{}", group.name, param.name)).unwrap();
            let dot = block.get(&format!("{}.{}", group.name, param.name)).unwrap();
            assert!(std::ptr::eq(colon, dot));
            assert!(std::ptr::eq(colon, param));
        }
    }
    for key in ["POINT:NONE", "NONE:USED"] {
        assert!(block.get(key).is_none());
        assert!(block.get(&key.replace(':', ".")).is_none());
    }
}
