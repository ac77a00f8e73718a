use c3d::labels::{analog_labels_of, insert_sorted, labels_of, names_of};
use c3d::order::chars_of;
use c3d::{
    AnalogSample, C3dAdapter, ParamData, ParamValue, ParameterBlock, ParameterFormat,
    ParserError, Quantity,
};

// ---- building byte sources ----

#[allow(dead_code)]
fn header_block(
    points: u16,
    analog: u16,
    first: u16,
    last: u16,
    scale: f32,
    data_start: u16,
) -> Vec<u8> {
    let mut h = vec![0u8; 512];
    h[0] = 2;
    h[1] = 0x50;
    h[2..4].copy_from_slice(&points.to_le_bytes());
    h[4..6].copy_from_slice(&analog.to_le_bytes());
    h[6..8].copy_from_slice(&first.to_le_bytes());
    h[8..10].copy_from_slice(&last.to_le_bytes());
    h[12..16].copy_from_slice(&scale.to_le_bytes());
    h[16..18].copy_from_slice(&data_start.to_le_bytes());
    h
}

#[allow(dead_code)]
fn group_entry(id: u8, name: &str, description: &str, locked: bool) -> Vec<u8> {
    let mut e = Vec::new();
    let n = name.len() as i8;
    e.push((if locked { -n } else { n }) as u8);
    e.push((-(id as i16)) as i8 as u8);
    e.extend_from_slice(name.as_bytes());
    let offset = (2 + 1 + description.len()) as i16;
    e.extend_from_slice(&offset.to_le_bytes());
    e.push(description.len() as u8);
    e.extend_from_slice(description.as_bytes());
    e
}

#[allow(dead_code)]
fn param_entry(
    group: u8,
    name: &str,
    width: i8,
    dims: &[u8],
    payload: &[u8],
    description: &str,
    locked: bool,
) -> Vec<u8> {
    let mut e = Vec::new();
    let n = name.len() as i8;
    e.push((if locked { -n } else { n }) as u8);
    e.push(group);
    e.extend_from_slice(name.as_bytes());
    let offset = (2 + 1 + 1 + dims.len() + payload.len() + 1 + description.len()) as i16;
    e.extend_from_slice(&offset.to_le_bytes());
    e.push(width as u8);
    e.push(dims.len() as u8);
    e.extend_from_slice(dims);
    e.extend_from_slice(payload);
    e.push(description.len() as u8);
    e.extend_from_slice(description.as_bytes());
    e
}

#[allow(dead_code)]
fn section(entries: &[Vec<u8>], blocks: u8) -> Vec<u8> {
    let mut s = vec![0u8, 0, blocks, 0x54];
    for e in entries {
        s.extend_from_slice(e);
    }
    assert!(s.len() <= blocks as usize * 512);
    s.resize(blocks as usize * 512, 0);
    s
}

#[allow(dead_code)]
fn i16s(values: &[i16]) -> Vec<u8> {
    values.iter().flat_map(|v| v.to_le_bytes()).collect()
}

#[allow(dead_code)]
fn u16s(values: &[u16]) -> Vec<u8> {
    values.iter().flat_map(|v| v.to_le_bytes()).collect()
}

#[allow(dead_code)]
fn f32s(values: &[f32]) -> Vec<u8> {
    values.iter().flat_map(|v| v.to_le_bytes()).collect()
}

#[allow(dead_code)]
fn source(header: Vec<u8>, section: Vec<u8>, data: Vec<u8>) -> Vec<u8> {
    let mut all = header;
    all.extend_from_slice(&section);
    all.extend_from_slice(&data);
    all
}

#[allow(dead_code)]
fn open(bytes: Vec<u8>) -> Result<C3dAdapter, ParserError> {
    C3dAdapter::new(bytes)?.construct()
}

// ---- the arithmetic that the library leaves to its caller ----

#[allow(dead_code)]
fn number(q: Quantity, scale: f32) -> f32 {
    match q {
        Quantity::Real(bits) => f32::from_bits(bits),
        Quantity::Scaled(n) => n as f32 * scale.abs(),
        Quantity::Whole(n) => n as f32,
        Quantity::Occluded => -0.01,
    }
}

#[allow(dead_code)]
fn point(p: &[Quantity; 5], scale: f32) -> [f32; 5] {
    [
        number(p[0], scale),
        number(p[1], scale),
        number(p[2], scale),
        number(p[3], scale),
        number(p[4], scale),
    ]
}

#[allow(dead_code)]
fn sample(s: &AnalogSample, scale: f32) -> f32 {
    let mut v = number(s.raw, scale);
    if let Some(offset) = s.offset {
        v -= offset as f32;
    }
    if let Some(bits) = s.scale {
        v *= f32::from_bits(bits);
    }
    if let Some(bits) = s.gen_scale {
        v *= f32::from_bits(bits);
    }
    v
}


fn table(name: &str, width: i8, dims: &[u8], payload: &[u8]) -> ParameterFormat {
    let bytes = section(
        &[group_entry(1, "G", "", false), param_entry(1, name, width, dims, payload, "", false)],
        1,
    );
    let mut block = ParameterBlock::from_bytes(&bytes).unwrap();
    block.groups.remove(0).params.remove(0)
}

fn strings(labels: &[&str]) -> Vec<String> {
    labels.iter().map(|l| l.to_string()).collect()
}

#[test]
fn point_labels_are_listed() {
    let entries = vec![
        group_entry(1, "POINT", "", false),
        param_entry(1, "LABELS", -1, &[6, 3], b"LASI  RASI  SACR\t\n", "", false),
    ];
    let bytes = source(header_block(0, 0, 1, 0, 1.0, 3), section(&entries, 1), vec![]);
    let adapter = open(bytes).unwrap();
    assert_eq!(adapter.get_point_lables(), Some(strings(&["LASI", "RASI", "SACR"])));
    assert_eq!(adapter.get_analog_lables(), None);
}

#[test]
fn no_point_labels_without_the_parameter() {
    let entries = vec![
        group_entry(1, "POINT", "", false),
        param_entry(1, "LABELS2", -1, &[4, 1], b"LASI", "", false),
        group_entry(2, "ANALOG", "", false),
    ];
    let bytes = source(header_block(0, 0, 1, 0, 1.0, 3), section(&entries, 1), vec![]);
    let adapter = open(bytes).unwrap();
    assert_eq!(adapter.get_point_lables(), None);
    assert_eq!(adapter.get_analog_lables(), Some(vec![]));
}

#[test]
fn labels_are_runs_of_the_first_dimension() {
    assert_eq!(labels_of(&table("L", -1, &[4, 2], b"CH01CH02")), strings(&["CH01", "CH02"]));
    assert_eq!(labels_of(&table("L", -1, &[2, 4], b"CH01CH02")), strings(&["CH", "01", "CH", "02"]));
    assert_eq!(labels_of(&table("L", -1, &[8], b"CH01CH02")), strings(&["CH01CH02"]));
    assert_eq!(labels_of(&table("L", -1, &[2, 2, 2], b"CH01CH02")), strings(&["CH", "01", "CH", "02"]));
    assert_eq!(labels_of(&table("L", -1, &[4, 0], b"")), strings(&[]));
    assert_eq!(labels_of(&table("L", -1, &[0, 3], b"")), strings(&[]));
    assert_eq!(labels_of(&table("L", -1, &[], b"X")), strings(&[]));
    assert_eq!(labels_of(&table("L", -1, &[1], b"X")), strings(&["X"]));
}

#[test]
fn labels_lose_the_white_space_around_them() {
    assert_eq!(
        labels_of(&table("L", -1, &[8, 4], b"LEFT ARM  R ARM          \t x \r\n ")),
        strings(&["LEFT ARM", "R ARM", "", "x"])
    );
    assert_eq!(
        labels_of(&table("L", -1, &[3, 1], &[0xA0, 0xE9, 0x85])),
        strings(&["\u{e9}"])
    );
}

#[test]
fn labels_take_characters_only() {
    assert_eq!(labels_of(&table("L", 1, &[2, 2], b"abcd")), strings(&["", ""]));
    assert_eq!(labels_of(&table("L", 2, &[1, 2], b"abcd")), strings(&["", ""]));
    let mixed = ParameterFormat {
        name_chars_size: 1,
        id: 1,
        name: "L".to_string(),
        offset: 0,
        data_length: -1,
        num_dimensions: 1,
        dimensions: vec![3],
        parameter_data: ParamData {
            values: vec![
                ParamValue::Char(b'a'),
                ParamValue::I16(7),
                ParamValue::Char(b'b'),
                ParamValue::Char(b' '),
                ParamValue::Byte(b'x'),
                ParamValue::Char(b'c'),
                ParamValue::Char(b'd'),
            ],
            locked: false,
        },
        desc_chars_size: 0,
        description: String::new(),
    };
    assert_eq!(labels_of(&mixed), strings(&["ab", "c"]));
}

#[test]
fn analog_labels_follow_the_order_of_the_names() {
    let entries = vec![
        group_entry(1, "POINT", "", false),
        param_entry(1, "LABELS", -1, &[2, 1], b"PT", "", false),
        group_entry(2, "ANALOG", "", false),
        param_entry(2, "LABELS3", -1, &[2, 2], b"E1E2", "", false),
        param_entry(2, "USED", 2, &[], &i16s(&[6]), "", false),
        param_entry(2, "LABELS", -1, &[2, 2], b"A1A2", "", false),
        param_entry(2, "XLABEL", -1, &[2, 1], b"X1", "", false),
        param_entry(2, "LABELS2", -1, &[2, 2], b"C1C2", "", false),
        param_entry(2, "LABEL", -1, &[2, 1], b"L1", "", false),
        param_entry(2, "LABELS10", -1, &[2, 1], b"B1", "", false),
        param_entry(2, "LABE", -1, &[2, 1], b"N1", "", false),
        param_entry(2, "labels", -1, &[2, 1], b"N2", "", false),
    ];
    let bytes = source(header_block(0, 0, 1, 0, 1.0, 3), section(&entries, 1), vec![]);
    let adapter = open(bytes).unwrap();
    assert_eq!(
        adapter.get_analog_lables(),
        Some(strings(&["L1", "A1", "A2", "B1", "C1", "C2", "E1", "E2", "X1"]))
    );
    let params = &adapter.parameter.as_ref().unwrap().groups[1].params;
    let mut keys: Vec<&str> =
        params.iter().map(|p| p.name.as_str()).filter(|n| n.contains("LABEL")).collect();
    keys.sort();
    let expected: Vec<String> = keys
        .iter()
        .flat_map(|k| labels_of(params.iter().find(|p| p.name == *k).unwrap()))
        .collect();
    assert_eq!(analog_labels_of(params), expected);
    assert_eq!(
        names_of(params)[1..3].to_vec(),
        vec![chars_of("USED"), chars_of("LABELS")]
    );
}

#[test]
fn indices_are_put_in_the_order_of_their_names() {
    let names: Vec<Vec<char>> =
        ["M", "B", "Z", "A", "MM", "", "B"].iter().map(|n| chars_of(n)).collect();
    let mut order = vec![];
    for k in 0..names.len() {
        insert_sorted(&mut order, &names, k);
        let picked: Vec<&Vec<char>> = order.iter().map(|i| &names[*i]).collect();
        let mut sorted = picked.clone();
        sorted.sort();
        assert_eq!(picked, sorted);
        assert_eq!(order.len(), k + 1);
    }
    assert_eq!(order, vec![5, 3, 1, 6, 0, 4, 2]);
}
