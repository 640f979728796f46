use rust_stubs::nbt::{
    read_named_tag, read_tag_value, read_utf, write_named_tag, write_tag_value, write_utf,
    NamedTag, TagValue, TAG_COMPOUND, TAG_INT, TAG_LIST,
};
use rust_stubs::nbt_format::NbtError;
use rust_stubs::java::ByteArrayInputStream;

#[test]
fn test_nbt_roundtrip() {
    let root = NamedTag::new(
        "Level",
        TagValue::Compound(vec![
            NamedTag::new("gameType", TagValue::Int(1)),
            NamedTag::new("generatorName", TagValue::String("default".into())),
            NamedTag::new("spawnX", TagValue::Int(120)),
            NamedTag::new("spawnY", TagValue::Int(64)),
            NamedTag::new("spawnZ", TagValue::Int(-250)),
            NamedTag::new(
                "inventory",
                TagValue::List {
                    element_type: TAG_COMPOUND,
                    items: vec![TagValue::Compound(vec![
                        NamedTag::new("id", TagValue::Short(276)),
                        NamedTag::new("count", TagValue::Byte(1)),
                    ])],
                },
            ),
        ]),
    );

    let mut buf = Vec::new();
    write_named_tag(&mut buf, &root).unwrap();

    let mut cursor = ByteArrayInputStream::new(buf);
    let read_back = read_named_tag(&mut cursor, 0).unwrap();

    assert_eq!(root, read_back);
}

#[test]
fn every_kind_of_value_round_trips() {
    let values = vec![
        TagValue::Byte(-5),
        TagValue::Short(-300),
        TagValue::Int(i32::MIN),
        TagValue::Long(0x0102_0304_0506_0708),
        TagValue::Float(2.5f32.to_bits()),
        TagValue::Double((-0.125f64).to_bits()),
        TagValue::ByteArray(vec![0, 1, 255]),
        TagValue::String("héllo".to_string()),
        TagValue::List { element_type: TAG_INT, items: vec![TagValue::Int(1), TagValue::Int(2)] },
        TagValue::List { element_type: 0, items: vec![TagValue::End, TagValue::End] },
        TagValue::Compound(vec![]),
        TagValue::IntArray(vec![-1, 0, 7]),
    ];
    for v in values {
        let mut buf = Vec::new();
        write_tag_value(&mut buf, &v).unwrap();
        buf.push(0xAA);
        let mut r = ByteArrayInputStream::new(buf);
        let back = read_tag_value(&mut r, v.id(), 0).unwrap();
        assert_eq!(back, v);
        assert_eq!(r.available(), 1);
    }
}

#[test]
fn payload_bytes_are_big_endian() {
    let mut buf = Vec::new();
    write_tag_value(&mut buf, &TagValue::Int(0x01020304)).unwrap();
    assert_eq!(buf, vec![1, 2, 3, 4]);
    let mut buf = Vec::new();
    write_tag_value(&mut buf, &TagValue::IntArray(vec![5])).unwrap();
    assert_eq!(buf, vec![0, 0, 0, 1, 0, 0, 0, 5]);
    let mut buf = Vec::new();
    write_named_tag(&mut buf, &NamedTag::new("ab", TagValue::Byte(3))).unwrap();
    assert_eq!(buf, vec![1, 0, 2, b'a', b'b', 3]);
    let mut buf = Vec::new();
    write_named_tag(&mut buf, &NamedTag::new("ignored", TagValue::End)).unwrap();
    assert_eq!(buf, vec![0]);
}

#[test]
fn utf_strings_round_trip_and_decode_lossily() {
    let mut buf = Vec::new();
    write_utf(&mut buf, "Ça").unwrap();
    assert_eq!(buf, vec![0, 3, 0xC3, 0x87, b'a']);
    let mut r = ByteArrayInputStream::new(buf);
    assert_eq!(read_utf(&mut r).unwrap(), "Ça");
    let mut r = ByteArrayInputStream::new(vec![0, 2, 0xFF, b'x']);
    assert_eq!(read_utf(&mut r).unwrap(), "\u{FFFD}x");
    let mut r = ByteArrayInputStream::new(vec![0, 5, b'x']);
    assert_eq!(read_utf(&mut r), Err(NbtError::UnexpectedEof));
    assert_eq!(r.available(), 0);
}

#[test]
fn read_errors() {
    let mut r = ByteArrayInputStream::new(vec![1, 2, 3]);
    assert_eq!(read_tag_value(&mut r, 12, 0), Err(NbtError::InvalidTagId(12)));
    assert_eq!(r.available(), 3);
    let mut r = ByteArrayInputStream::new(vec![0, 0]);
    assert_eq!(read_tag_value(&mut r, TAG_INT, 0), Err(NbtError::UnexpectedEof));
    assert_eq!(r.available(), 0);
    let mut r = ByteArrayInputStream::new(vec![]);
    assert_eq!(read_named_tag(&mut r, 0), Err(NbtError::UnexpectedEof));
    // A named tag with an unknown id reads its name, then fails on the value.
    let mut r = ByteArrayInputStream::new(vec![42, 0, 1, b'n', 9]);
    assert_eq!(read_named_tag(&mut r, 0), Err(NbtError::InvalidTagId(42)));
    assert_eq!(r.available(), 1);
    // 255 is read as an end tag.
    let mut r = ByteArrayInputStream::new(vec![255]);
    assert_eq!(read_named_tag(&mut r, 0).unwrap(), NamedTag::new("", TagValue::End));
    // A list that stops early.
    let mut r = ByteArrayInputStream::new(vec![TAG_INT, 0, 0, 0, 2, 0, 0, 0, 1, 0]);
    assert_eq!(read_tag_value(&mut r, TAG_LIST, 0), Err(NbtError::UnexpectedEof));
    // A compound without its end byte.
    let mut r = ByteArrayInputStream::new(vec![1, 0, 1, b'b', 7]);
    assert_eq!(read_tag_value(&mut r, TAG_COMPOUND, 0), Err(NbtError::UnexpectedEof));
}

#[test]
fn ids_and_names() {
    assert_eq!(TagValue::End.id(), 0);
    assert_eq!(TagValue::IntArray(vec![]).id(), 11);
    assert_eq!(TagValue::tag_name(0), "TAG_End");
    assert_eq!(TagValue::tag_name(7), "TAG_Byte_Array");
    assert_eq!(TagValue::tag_name(11), "TAG_Int_Array");
    assert_eq!(TagValue::tag_name(12), "UNKNOWN");
}
