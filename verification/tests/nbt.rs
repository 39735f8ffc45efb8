//! Tests for the tag data model, the encoder and the decoder.

use nbt::decode::Decoder;
use nbt::encode::Encoder;
use nbt::traits::FromNbt;
use nbt::traits::ToNbt;
use nbt::util::ByteArrayWrapper;
use nbt::util::IndexOpt;
use nbt::util::IndexOptMut;
use nbt::util::IntArrayWrapper;
use nbt::CompoundData;
use nbt::Error;
use nbt::ListData;
use nbt::Tag;
use nbt::TagType;

fn encode_named(name: &str, tag: &Tag) -> Vec<u8> {
    let mut enc = Encoder::from_writer(Vec::new());
    enc.write_tag((name, tag)).expect("a valid tree encodes");
    enc.into_inner()
}

fn decode_named(bytes: Vec<u8>) -> (String, Tag) {
    let mut dec = Decoder::from_reader(bytes);
    dec.read_tag().expect("a valid stream decodes")
}

#[test]
fn test_tonbt() {
    assert!(42_i8.to_nbt() == Tag::Byte(42));
    assert!("test".to_owned().to_nbt() == Tag::String("test".to_owned()));
}

#[test]
fn test_fromnbt() {
    assert!(FromNbt::from_nbt(&Tag::Short(12)) == Some(12_i32));
    assert!(FromNbt::from_nbt(&Tag::Byte(42_i8)) == Some(42_i8));
    assert!(<i8 as FromNbt>::from_nbt(&Tag::Int(42_i32)) == None);
}

#[test]
fn test_aggregate() {
    let list = ListData {
        element_type: TagType::Short,
        elements: vec![Tag::Short(1), Tag::Short(2), Tag::Short(3)],
    };

    assert_eq!(list.index_opt(0), Some(&Tag::Short(1)));
    assert_eq!(list.index_opt(5), None);

    let mut comp = CompoundData::new();

    comp.insert("Foo".to_owned(), Tag::String("Bar".to_owned()));
    comp.insert("Bar".to_owned(), Tag::Short(42));

    assert_eq!(comp.index_opt("Foo"), Some(&Tag::String("Bar".to_owned())));
}

#[test]
fn tag_type_codes_are_bijective() {
    let all = [
        TagType::End,
        TagType::Byte,
        TagType::Short,
        TagType::Int,
        TagType::Long,
        TagType::Float,
        TagType::Double,
        TagType::ByteArray,
        TagType::String,
        TagType::List,
        TagType::Compound,
        TagType::IntArray,
    ];
    for (code, t) in all.iter().enumerate() {
        assert_eq!(t.to_binary(), code as u8);
        assert_eq!(TagType::from_binary(code as u8), Some(*t));
    }
    for code in 12..=255_u16 {
        assert_eq!(TagType::from_binary(code as u8), None);
    }
}

#[test]
fn scalars_round_trip() {
    for tag in [
        Tag::Byte(-7),
        Tag::Short(-300),
        Tag::Int(123456789),
        Tag::Long(-9876543210),
        Tag::Float((-0.0_f32).to_bits()),
        Tag::Float(f32::NAN.to_bits()),
        Tag::Double(2.5_f64.to_bits()),
        Tag::String("héllo wörld".to_owned()),
        Tag::ByteArray(vec![0, 1, 2, 255]),
        Tag::IntArray(vec![i32::MIN, -1, 0, 7, i32::MAX]),
    ] {
        let bytes = encode_named("k", &tag);
        let (name, back) = decode_named(bytes);
        assert_eq!(name, "k");
        assert_eq!(back, tag);
    }
}

#[test]
fn nested_structure_round_trips() {
    let mut comp = CompoundData::new();
    comp.insert("a".to_owned(), Tag::Int(5));
    comp.insert(
        "b".to_owned(),
        Tag::List(ListData {
            element_type: TagType::Short,
            elements: vec![Tag::Short(1), Tag::Short(2), Tag::Short(3)],
        }),
    );
    let tag = Tag::Compound(comp);

    let bytes = encode_named("root", &tag);
    let (name, back) = decode_named(bytes);
    assert_eq!(name, "root");
    let got = match &back {
        Tag::Compound(c) => c,
        _ => panic!("expected a compound"),
    };
    assert_eq!(got.index_opt("a"), Some(&Tag::Int(5)));
    match got.index_opt("b") {
        Some(Tag::List(l)) => {
            assert_eq!(l.element_type, TagType::Short);
            assert_eq!(
                l.elements,
                vec![Tag::Short(1), Tag::Short(2), Tag::Short(3)]
            );
        }
        other => panic!("expected a short list, got {:?}", other),
    }
    assert_eq!(back, tag);
}

#[test]
fn empty_list_keeps_declared_element_type() {
    for et in [TagType::End, TagType::Short, TagType::Compound] {
        let tag = Tag::List(ListData {
            element_type: et,
            elements: Vec::new(),
        });
        let (_, back) = decode_named(encode_named("", &tag));
        match back {
            Tag::List(l) => {
                assert_eq!(l.element_type, et);
                assert!(l.elements.is_empty());
            }
            other => panic!("expected a list, got {:?}", other),
        }
    }
}

#[test]
fn empty_compound_wire_form_is_exact() {
    let tag = Tag::Compound(CompoundData::new());
    let bytes = encode_named("hi", &tag);
    assert_eq!(
        bytes,
        vec![10, 0, 2, b'h', b'i', 0x00]
    );
    let (name, back) = decode_named(bytes);
    assert_eq!(name, "hi");
    match back {
        Tag::Compound(c) => assert!(c.elements.is_empty()),
        other => panic!("expected a compound, got {:?}", other),
    }
}

#[test]
fn malformed_type_code_is_an_error() {
    for lead in [12_u8, 13, 100, 255] {
        let mut dec = Decoder::from_reader(vec![lead, 0, 0]);
        assert!(matches!(dec.read_tag(), Err(Error::Malformed)));
    }
}

#[test]
fn short_streams_are_malformed() {
    let mut dec = Decoder::from_reader(Vec::new());
    assert!(matches!(dec.read_tag(), Err(Error::Malformed)));

    // A named Int whose payload is cut off after two bytes.
    let mut dec = Decoder::from_reader(vec![3, 0, 1, b'a', 0x00, 0x01]);
    assert!(matches!(dec.read_tag(), Err(Error::Malformed)));

    // A string whose announced length exceeds what follows.
    let mut dec = Decoder::from_reader(vec![8, 0, 1, b'a', 0, 9, b'x']);
    assert!(matches!(dec.read_tag(), Err(Error::Malformed)));
}

#[test]
fn negative_count_is_malformed() {
    // A named ByteArray whose 32-bit count has the sign bit set.
    let mut dec = Decoder::from_reader(vec![7, 0, 1, b'a', 0x80, 0, 0, 0]);
    assert!(matches!(dec.read_tag(), Err(Error::Malformed)));
}

#[test]
fn bare_end_value_cannot_be_written() {
    let mut enc = Encoder::from_writer(Vec::new());
    assert!(matches!(enc.write_tag(("x", &Tag::End)), Err(Error::Invalid)));

    // The same End marker buried in a list is found during the walk.
    let tag = Tag::List(ListData {
        element_type: TagType::End,
        elements: vec![Tag::End],
    });
    let mut enc = Encoder::from_writer(Vec::new());
    assert!(matches!(enc.write_tag(("x", &tag)), Err(Error::Invalid)));
}

#[test]
fn end_terminator_reads_as_end_tag() {
    let mut dec = Decoder::from_reader(vec![0]);
    let (name, tag) = dec.read_tag().expect("a bare End terminator decodes");
    assert_eq!(name, "");
    assert_eq!(tag, Tag::End);
}

#[test]
fn heterogeneous_list_is_not_detected_by_the_encoder() {
    // The declared element type does not match every element: building and
    // writing such a list succeeds — the invariant is the constructor's
    // responsibility, and the encoder does not re-check it.
    let tag = Tag::List(ListData {
        element_type: TagType::Short,
        elements: vec![Tag::Short(1), Tag::Int(2)],
    });
    let mut enc = Encoder::from_writer(Vec::new());
    assert!(enc.write_tag(("odd", &tag)).is_ok());

    // The decoder's own output always satisfies the invariant: every
    // element of a decoded list has the declared element type.
    let bytes = encode_named(
        "ok",
        &Tag::List(ListData {
            element_type: TagType::Short,
            elements: vec![Tag::Short(1), Tag::Short(2)],
        }),
    );
    let (_, back) = decode_named(bytes);
    match back {
        Tag::List(l) => {
            for e in &l.elements {
                assert_eq!(e.get_type(), l.element_type);
            }
        }
        other => panic!("expected a list, got {:?}", other),
    }
}

#[test]
fn duplicate_names_last_write_wins() {
    let mut comp = CompoundData::new();
    comp.insert("k".to_owned(), Tag::Int(1));
    comp.insert("other".to_owned(), Tag::Int(5));
    comp.insert("k".to_owned(), Tag::Int(2));
    assert_eq!(comp.elements.len(), 2);
    assert_eq!(comp.index_opt("k"), Some(&Tag::Int(2)));

    // The same through the wire: two entries with one name in the byte
    // stream decode to a single entry holding the later value.
    let bytes = vec![
        10, 0, 0, // compound named ""
        1, 0, 1, b'k', 7, // Byte "k" = 7
        1, 0, 1, b'k', 9, // Byte "k" = 9
        0, // End
    ];
    let (_, back) = decode_named(bytes);
    match back {
        Tag::Compound(c) => {
            assert_eq!(c.elements.len(), 1);
            assert_eq!(c.index_opt("k"), Some(&Tag::Byte(9)));
        }
        other => panic!("expected a compound, got {:?}", other),
    }
}

#[test]
fn lossy_string_reading_replaces_invalid_bytes() {
    // A string tag whose payload is not valid UTF-8: 'a', a lone
    // continuation byte, 'b'. Reading never fails; the stray byte becomes
    // U+FFFD. This would fail if the bytes were handed back unchanged.
    let mut dec = Decoder::from_reader(vec![8, 0, 0, 0, 3, b'a', 0x80, b'b']);
    let (_, tag) = dec.read_tag().expect("lossy reading never fails");
    assert_eq!(tag, Tag::String("a\u{FFFD}b".to_owned()));
}

#[test]
fn lossy_reading_matches_from_utf8_lossy() {
    // One replacement character per maximal subpart of an ill-formed
    // sequence, exactly as String::from_utf8_lossy substitutes.
    let payloads: Vec<Vec<u8>> = vec![
        vec![0xE0, 0xA0],                   // truncated three-byte sequence: one subpart
        vec![0xE0, 0xA0, b'A'],             // valid pair, then a fresh character
        vec![0xF0, 0x9F, 0x98],             // truncated four-byte sequence: one subpart
        vec![0xF0, 0x9F, 0x98, b'.'],       // three-byte subpart, then '.'
        vec![0xED, 0xA0, 0x80],             // surrogate range: three subparts
        vec![0xC0, 0xAF],                   // overlong lead: two subparts
        vec![0xF5, 0x80],                   // out-of-range lead: two subparts
        vec![b'a', 0x80, b'b'],             // stray continuation byte
        vec![0xC2],                         // lone two-byte lead at the end
        vec![0xE1, 0x80, b'x', 0xF4, 0x90], // mixed subparts among characters
    ];
    for p in payloads {
        let expected = String::from_utf8_lossy(&p).into_owned();
        let mut bytes = vec![8, 0, 0, 0, p.len() as u8];
        bytes.extend_from_slice(&p);
        let mut dec = Decoder::from_reader(bytes);
        let (_, tag) = dec.read_tag().expect("lossy reading never fails");
        assert_eq!(tag, Tag::String(expected));
    }
}

#[test]
fn end_value_request_consumes_nothing() {
    let data = vec![1, 2, 3];
    let mut pos: usize = 0;
    assert!(matches!(
        nbt::decode::read_value(&data, &mut pos, TagType::End),
        Err(Error::Malformed)
    ));
    assert_eq!(pos, 0);
}

#[test]
fn bare_end_value_writes_nothing() {
    let mut out = Vec::new();
    assert!(matches!(
        nbt::encode::write_value(&mut out, &Tag::End),
        Err(Error::Invalid)
    ));
    assert!(out.is_empty());
}

#[test]
fn multibyte_names_round_trip() {
    let tag = Tag::Byte(1);
    let bytes = encode_named("κλειδί", &tag);
    let (name, back) = decode_named(bytes);
    assert_eq!(name, "κλειδί");
    assert_eq!(back, tag);
}

#[test]
fn array_wrappers_build_array_tags() {
    let bytes = [1_u8, 2, 3];
    assert!(ByteArrayWrapper::new(&bytes).to_nbt() == Tag::ByteArray(vec![1, 2, 3]));
    let ints = [4_i32, -5];
    assert!(IntArrayWrapper::new(&ints).to_nbt() == Tag::IntArray(vec![4, -5]));
}

#[test]
fn slice_to_nbt_keeps_matching_elements() {
    let xs: &[i16] = &[1, 2, 3];
    match xs.to_nbt() {
        Tag::List(l) => {
            assert_eq!(l.element_type, TagType::Short);
            assert_eq!(l.elements, vec![Tag::Short(1), Tag::Short(2), Tag::Short(3)]);
        }
        other => panic!("expected a list, got {:?}", other),
    }
    let empty: &[i16] = &[];
    match empty.to_nbt() {
        Tag::List(l) => {
            assert_eq!(l.element_type, TagType::Byte);
            assert!(l.elements.is_empty());
        }
        other => panic!("expected a list, got {:?}", other),
    }
}

#[test]
fn index_opt_mut_reaches_the_stored_value() {
    let mut list = ListData {
        element_type: TagType::Int,
        elements: vec![Tag::Int(1), Tag::Int(2)],
    };
    if let Some(slot) = list.index_opt_mut(1) {
        *slot = Tag::Int(20);
    }
    assert_eq!(list.index_opt(1), Some(&Tag::Int(20)));
    assert!(list.index_opt_mut(5).is_none());

    let mut comp = CompoundData::new();
    comp.insert("k".to_owned(), Tag::Byte(1));
    if let Some(slot) = comp.index_opt_mut("k") {
        *slot = Tag::Byte(2);
    }
    assert_eq!(comp.index_opt("k"), Some(&Tag::Byte(2)));
}

#[test]
fn trailing_bytes_are_left_for_the_next_read() {
    let mut bytes = encode_named("a", &Tag::Byte(1));
    bytes.extend_from_slice(&encode_named("b", &Tag::Short(2)));
    let mut dec = Decoder::from_reader(bytes);
    assert_eq!(dec.read_tag().unwrap(), ("a".to_owned(), Tag::Byte(1)));
    assert_eq!(dec.read_tag().unwrap(), ("b".to_owned(), Tag::Short(2)));
    assert!(matches!(dec.read_tag(), Err(Error::Malformed)));
}
