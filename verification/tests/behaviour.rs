use cbor_next::decode::{
    decode_byte_or_text, decode_indefinite_byte_or_text, extract_array_item, extract_map_item,
};
use cbor_next::diagnostic::{spell, Piece};
use cbor_next::{
    ArrayContent, ByteContent, DataItem, DeterministicMode, Error, Get, MapContent, SimpleValue,
    TagContent, TextContent,
};
use indexmap::IndexMap;

fn text(value: &str) -> DataItem {
    DataItem::from(value)
}

fn bytes(value: &[u8]) -> DataItem {
    DataItem::from(value)
}

fn map_of(entries: Vec<(DataItem, DataItem)>) -> DataItem {
    DataItem::from(IndexMap::from_iter(entries))
}

fn samples() -> Vec<DataItem> {
    let indefinite_bytes = DataItem::Byte(
        ByteContent::default()
            .set_indefinite(true)
            .push_bytes(&[1, 2])
            .push_bytes(&[])
            .push_bytes(&[3])
            .clone(),
    );
    let indefinite_text = DataItem::Text(
        TextContent::default()
            .set_indefinite(true)
            .push_string("strea")
            .push_string("ming")
            .clone(),
    );
    let indefinite_array = DataItem::Array(
        ArrayContent::default()
            .set_indefinite(true)
            .set_content(&[DataItem::from(1), indefinite_bytes.clone()])
            .clone(),
    );
    let mut indefinite_map = MapContent::default();
    indefinite_map.set_indefinite(true);
    indefinite_map
        .map_mut()
        .insert(text("b"), DataItem::from(vec![DataItem::from(-5)]));
    indefinite_map
        .map_mut()
        .insert(DataItem::from(7), indefinite_text.clone());
    vec![
        DataItem::from(0),
        DataItem::from(23),
        DataItem::from(24),
        DataItem::from(255),
        DataItem::from(256),
        DataItem::from(65_535),
        DataItem::from(65_536),
        DataItem::from(4_294_967_295u64),
        DataItem::from(4_294_967_296u64),
        DataItem::from(u64::MAX),
        DataItem::from(-1),
        DataItem::from(i64::MIN),
        DataItem::Signed(u64::MAX),
        bytes(&[]),
        bytes(&[0xff; 24]),
        text(""),
        text("水 and 𐅑"),
        DataItem::from(Vec::<DataItem>::new()),
        DataItem::from(vec![DataItem::from(1), text("a"), DataItem::Null]),
        map_of(vec![]),
        map_of(vec![
            (text("z"), DataItem::from(1)),
            (DataItem::from(10), text("ten")),
            (bytes(&[1]), DataItem::from(vec![DataItem::from(true)])),
        ]),
        DataItem::from(TagContent::from((0, text("2013-03-21T20:04:00Z")))),
        DataItem::from(TagContent::from((
            u64::MAX,
            DataItem::from(TagContent::from((1, DataItem::from(2)))),
        ))),
        DataItem::from(true),
        DataItem::from(false),
        DataItem::Null,
        DataItem::Undefined,
        DataItem::Floating(0.0f64.to_bits()),
        DataItem::Floating((-0.0f64).to_bits()),
        DataItem::Floating(1.5f64.to_bits()),
        DataItem::Floating(1.1f64.to_bits()),
        DataItem::Floating(100_000.0f64.to_bits()),
        DataItem::Floating(f64::INFINITY.to_bits()),
        DataItem::Floating(f64::NAN.to_bits()),
        DataItem::GenericSimple(SimpleValue::try_from(0).unwrap()),
        DataItem::GenericSimple(SimpleValue::try_from(19).unwrap()),
        DataItem::GenericSimple(SimpleValue::try_from(32).unwrap()),
        DataItem::GenericSimple(SimpleValue::try_from(255).unwrap()),
        indefinite_bytes,
        indefinite_text,
        indefinite_array,
        DataItem::Mapping(indefinite_map),
    ]
}

#[test]
fn decoding_undoes_encoding_on_samples() {
    for item in samples() {
        let encoded = item.encode();
        assert_eq!(DataItem::decode(&encoded), Ok(item.clone()), "{encoded:02x?}");
        let mut followed = encoded.clone();
        followed.extend_from_slice(&[0xff, 0x00, 0x1c]);
        assert_eq!(DataItem::decode(&followed), Ok(item), "{encoded:02x?}");
    }
}

#[test]
fn encoding_undoes_decoding_on_encodings() {
    for item in samples() {
        let encoded = item.encode();
        assert_eq!(DataItem::decode(&encoded).unwrap().encode(), encoded);
    }
}

#[test]
fn encoding_does_not_undo_decoding_of_a_longer_form() {
    let long = vec![0x18, 0x00];
    let item = DataItem::decode(&long).unwrap();
    assert_eq!(item, DataItem::Unsigned(0));
    assert_eq!(item.encode(), vec![0x00]);
    let wide = vec![0xfa, 0x7f, 0x80, 0x00, 0x00];
    assert_eq!(DataItem::decode(&wide).unwrap().encode(), vec![0xf9, 0x7c, 0x00]);
    let trailed = vec![0x01, 0x02];
    assert_eq!(DataItem::decode(&trailed).unwrap().encode(), vec![0x01]);
    let signalling = vec![0xf9, 0x7c, 0x01];
    assert_eq!(
        DataItem::decode(&signalling).unwrap().encode(),
        vec![0xf9, 0x7e, 0x01]
    );
}

#[test]
fn the_transform_yields_the_deterministic_form() {
    for mode in [DeterministicMode::Core, DeterministicMode::LengthFirst] {
        for item in samples() {
            let form = item.deterministic(&mode);
            assert!(form.is_deterministic(&mode), "{form:?}");
        }
    }
}

#[test]
fn the_transform_is_idempotent() {
    for mode in [DeterministicMode::Core, DeterministicMode::LengthFirst] {
        for item in samples() {
            let once = item.deterministic(&mode);
            let twice = once.clone().deterministic(&mode);
            assert_eq!(once.encode(), twice.encode());
            assert_eq!(once, twice);
        }
    }
}

#[test]
fn the_transform_changes_nothing_in_the_deterministic_form() {
    for mode in [DeterministicMode::Core, DeterministicMode::LengthFirst] {
        let mut seen = 0;
        for item in samples() {
            if item.is_deterministic(&mode) {
                seen += 1;
                let form = item.clone().deterministic(&mode);
                assert_eq!(form.encode(), item.encode());
            }
        }
        assert!(seen > 20);
    }
}

#[test]
fn the_transform_permutes_the_entries_of_a_map() {
    let entries = vec![
        (text("z"), DataItem::from(1)),
        (DataItem::from(10), text("ten")),
        (bytes(&[1]), DataItem::from(vec![DataItem::from(true)])),
        (DataItem::from(-1), DataItem::Null),
    ];
    for mode in [DeterministicMode::Core, DeterministicMode::LengthFirst] {
        let form = map_of(entries.clone()).deterministic(&mode);
        let held = form.as_map().unwrap();
        assert_eq!(held.len(), entries.len());
        for (key, value) in &entries {
            assert_eq!(held.get(key), Some(value));
        }
        let codes: Vec<Vec<u8>> = held.keys().map(DataItem::encode).collect();
        for pair in codes.windows(2) {
            match mode {
                DeterministicMode::LengthFirst => {
                    assert!((pair[0].len(), &pair[0]) <= (pair[1].len(), &pair[1]));
                }
                _ => assert!(pair[0] <= pair[1]),
            }
        }
    }
}

#[test]
fn the_transform_orders_keys_by_mode() {
    let item = map_of(vec![
        (text("aa"), DataItem::from(1)),
        (DataItem::from(100), DataItem::from(2)),
        (text("z"), DataItem::from(3)),
        (DataItem::from(false), DataItem::from(4)),
        (DataItem::from(10), DataItem::from(5)),
    ]);
    let core = item.clone().deterministic(&DeterministicMode::Core);
    assert_eq!(
        core.encode(),
        hex::decode("a50a05186402617a0362616101f404").unwrap()
    );
    let length_first = item.deterministic(&DeterministicMode::LengthFirst);
    assert_eq!(
        length_first.encode(),
        hex::decode("a50a05f404186402617a0362616101").unwrap()
    );
    assert!(!core.is_deterministic(&DeterministicMode::LengthFirst));
    assert!(!length_first.is_deterministic(&DeterministicMode::Core));
}

#[test]
fn the_transform_joins_chunks_and_closes_lengths() {
    let mut inner = MapContent::default();
    inner.set_indefinite(true);
    inner.map_mut().insert(
        DataItem::Text(
            TextContent::default()
                .set_indefinite(true)
                .push_string("a")
                .push_string("b")
                .clone(),
        ),
        DataItem::Byte(
            ByteContent::default()
                .set_indefinite(true)
                .push_bytes(&[1])
                .push_bytes(&[2, 3])
                .clone(),
        ),
    );
    let item = DataItem::Array(
        ArrayContent::default()
            .set_indefinite(true)
            .set_content(&[DataItem::Mapping(inner)])
            .clone(),
    );
    assert_eq!(item.encode(), hex::decode("9fbf7f61616162ff5f4101420203ffffff").unwrap());
    let form = item.deterministic(&DeterministicMode::Core);
    assert_eq!(form.encode(), hex::decode("81a162616243010203").unwrap());
}

#[test]
fn the_test_looks_into_everything_that_an_item_holds() {
    let item = map_of(vec![(
        DataItem::from(1),
        DataItem::Array(ArrayContent::default().set_indefinite(true).clone()),
    )]);
    assert!(!item.is_deterministic(&DeterministicMode::Core));
    let key = map_of(vec![(
        DataItem::Byte(ByteContent::default().set_indefinite(true).clone()),
        DataItem::from(1),
    )]);
    assert!(!key.is_deterministic(&DeterministicMode::Core));
    let unordered = map_of(vec![(
        DataItem::from(1),
        map_of(vec![
            (DataItem::from(2), DataItem::from(0)),
            (DataItem::from(1), DataItem::from(0)),
        ]),
    )]);
    assert!(!unordered.is_deterministic(&DeterministicMode::Core));
    let ordered = map_of(vec![(
        DataItem::from(1),
        map_of(vec![
            (DataItem::from(1), DataItem::from(0)),
            (DataItem::from(2), DataItem::from(0)),
        ]),
    )]);
    assert!(ordered.is_deterministic(&DeterministicMode::Core));
    let inside = DataItem::from(vec![DataItem::Array(
        ArrayContent::default().set_indefinite(true).clone(),
    )]);
    assert!(!inside.is_deterministic(&DeterministicMode::Core));
    let tagged = DataItem::from(TagContent::from((
        1,
        DataItem::Text(TextContent::default().set_indefinite(true).clone()),
    )));
    assert!(!tagged.is_deterministic(&DeterministicMode::LengthFirst));
}

#[test]
fn keys_that_become_alike_are_merged() {
    let mut content = MapContent::default();
    content.map_mut().insert(
        DataItem::Byte(
            ByteContent::default()
                .set_indefinite(true)
                .push_bytes(&[1, 2])
                .clone(),
        ),
        DataItem::from(1),
    );
    content.map_mut().insert(bytes(&[1, 2]), DataItem::from(2));
    let item = DataItem::Mapping(content);
    assert_eq!(item.as_map().unwrap().len(), 2);
    let form = item.deterministic(&DeterministicMode::Core);
    assert_eq!(form.encode(), hex::decode("a142010202").unwrap());
    assert!(form.is_deterministic(&DeterministicMode::Core));
}

#[test]
fn every_error_has_an_input() {
    assert_eq!(DataItem::decode(&[]), Err(Error::Incomplete));
    assert_eq!(DataItem::decode(&[0x82, 0x01]), Err(Error::Incomplete));
    assert_eq!(DataItem::decode(&[0xc1]), Err(Error::Incomplete));
    assert_eq!(DataItem::decode(&[0x9f, 0x01]), Err(Error::IncompleteIndefinite));
    assert_eq!(DataItem::decode(&[0x5f]), Err(Error::IncompleteIndefinite));
    assert_eq!(DataItem::decode(&[0xbf, 0x01, 0x02]), Err(Error::IncompleteIndefinite));
    assert_eq!(DataItem::decode(&[0xf8]), Err(Error::InvalidSimple));
    assert_eq!(DataItem::decode(&[0xf8, 0x1f]), Err(Error::InvalidSimple));
    assert_eq!(DataItem::decode(&[0xff]), Err(Error::InvalidBreakStop));
    assert_eq!(DataItem::decode(&[0x81, 0xff]), Err(Error::InvalidBreakStop));
    assert!(matches!(
        DataItem::decode(&[0x62, 0xc3, 0x28]),
        Err(Error::FromUtf8(_))
    ));
    assert!(matches!(
        DataItem::decode(&[0x7f, 0x61, 0xc3, 0x61, 0xbc, 0xff]),
        Err(Error::FromUtf8(_))
    ));
    assert_eq!(
        DataItem::decode(&[0xf9, 0x3c]),
        Err(Error::NotWellFormed(
            "incomplete array of byte missing 1 byte".to_string()
        ))
    );
    assert_eq!(
        DataItem::decode(&[0x7b, 0xff, 0xff, 0xff, 0xff, 0xff, 0xff, 0xff, 0xff]),
        Err(Error::NotWellFormed(
            "incomplete array of byte missing 18446744073709551615 byte".to_string()
        ))
    );
    assert_eq!(
        DataItem::decode(&[0xfe]),
        Err(Error::NotWellFormed(
            "invalid value 30 for major type 7".to_string()
        ))
    );
    assert_eq!(
        DataItem::decode(&[0xdf]),
        Err(Error::NotWellFormed("failed to extract number".to_string()))
    );
    assert_eq!(SimpleValue::try_from(20), Err(Error::InvalidSimple));
    assert_eq!(SimpleValue::try_from(31), Err(Error::InvalidSimple));
    assert!(DataItem::try_from(u128::from(u64::MAX) + 1).is_err());
    assert!(DataItem::try_from(-18_446_744_073_709_551_617_i128).is_err());
}

#[test]
fn a_key_that_stands_twice_is_refused_in_both_forms() {
    assert_eq!(
        DataItem::decode(&hex::decode("a2010201 03".replace(' ', "")).unwrap()),
        Err(Error::NotWellFormed(
            "same map key 1 is repeated multiple times".to_string()
        ))
    );
    assert_eq!(
        DataItem::decode(&hex::decode("bf616101616102ff").unwrap()),
        Err(Error::NotWellFormed(
            "same map key \"a\" is repeated multiple times".to_string()
        ))
    );
    assert_eq!(
        DataItem::decode(&hex::decode("a2f93e0001f93e0002").unwrap()),
        Err(Error::NotWellFormed(
            "same map key float(3ff8000000000000) is repeated multiple times".to_string()
        ))
    );
    assert_eq!(
        DataItem::decode(&hex::decode("a2a2010203040 0a2030401020 0".replace(' ', "")).unwrap()),
        Err(Error::NotWellFormed(
            "same map key {3: 4, 1: 2} is repeated multiple times".to_string()
        ))
    );
    assert!(DataItem::decode(&hex::decode("a2810100820101 00".replace(' ', "")).unwrap()).is_ok());
}

#[test]
fn the_value_of_a_key_is_found_whatever_the_order_of_its_entries() {
    let key = map_of(vec![
        (DataItem::from(1), DataItem::from(2)),
        (DataItem::from(3), DataItem::from(4)),
    ]);
    let turned = map_of(vec![
        (DataItem::from(3), DataItem::from(4)),
        (DataItem::from(1), DataItem::from(2)),
    ]);
    let other = map_of(vec![
        (DataItem::from(3), DataItem::from(4)),
        (DataItem::from(1), DataItem::from(5)),
    ]);
    let mut item = map_of(vec![
        (DataItem::from(9), text("nine")),
        (key.clone(), text("found")),
    ]);
    assert_eq!(key, turned);
    assert_eq!(item.get(key), Some(&text("found")));
    assert_eq!(item.get(turned.clone()), Some(&text("found")));
    assert_eq!(item.get(other), None);
    *item.get_mut(turned).unwrap() = text("changed");
    assert_eq!(item.encode(), hex::decode("a209646e696e65a2010203046763 68616e676564".replace(' ', "")).unwrap());
}

#[test]
fn items_are_looked_up_and_changed_in_place() {
    let mut item = DataItem::from(vec![DataItem::from(10), DataItem::from(11)]);
    assert_eq!(item.get(1), Some(&DataItem::from(11)));
    assert_eq!(item.get(2), None);
    assert_eq!(item[0], DataItem::from(10));
    *item.get_mut(1).unwrap() = text("x");
    assert_eq!(item.encode(), hex::decode("820a6178").unwrap());
    assert!(item.get_mut(2).is_none());
    assert!(DataItem::from(1).get(0).is_none());
    assert!(DataItem::from(1).get(DataItem::from(0)).is_none());
}

#[test]
fn inserting_keeps_the_place_of_a_key_and_takes_the_last_value() {
    let item = DataItem::from(vec![
        (DataItem::from(2), text("two")),
        (DataItem::from(1), text("one")),
        (DataItem::from(2), text("zwei")),
    ]);
    assert_eq!(item.encode(), hex::decode("a202647a7765690 1636f6e65".replace(' ', "")).unwrap());
}

#[test]
fn kinds_and_projections() {
    let tagged = DataItem::from(TagContent::from((
        20,
        DataItem::from(TagContent::from((30, DataItem::from(-21)))),
    )));
    assert!(tagged.is_tag());
    assert!(!tagged.is_signed_integer());
    assert!(tagged.check_inner(DataItem::is_signed_integer));
    assert!(!tagged.check_inner(DataItem::is_tag));
    assert_eq!(tagged.as_inner(DataItem::as_signed), Some((vec![20, 30], -21)));
    assert_eq!(tagged.as_inner(DataItem::as_unsigned), None);
    assert_eq!(DataItem::from(5).as_inner(DataItem::as_unsigned), Some((vec![], 5)));
    assert_eq!(tagged.as_tag().unwrap().0, 20);
    assert_eq!(tagged.major_type(), 6);

    assert_eq!(DataItem::from(20).as_unsigned(), Some(20));
    assert_eq!(DataItem::from(20).as_signed(), None);
    assert_eq!(DataItem::from(-21).as_signed(), Some(-21));
    assert_eq!(DataItem::from(-21).as_number(), Some(-21));
    assert_eq!(DataItem::from(345).as_number(), Some(345));
    assert_eq!(
        DataItem::Signed(u64::MAX).as_signed(),
        Some(-18_446_744_073_709_551_616_i128)
    );
    assert_eq!(DataItem::from(i64::MIN), DataItem::Signed(i64::MAX as u64));
    assert_eq!(DataItem::from(-1i8), DataItem::Signed(0));
    assert_eq!(DataItem::from(i8::MIN), DataItem::Signed(127));
    assert!(DataItem::from(-32).is_integer());
    assert!(DataItem::from(31u8).is_integer());
    assert!(DataItem::from(31u8).is_unsigned_integer());

    assert_eq!(bytes(&[0x6a]).as_byte(), Some(vec![0x6a]));
    assert_eq!(text("cbor").as_text(), Some("cbor".to_string()));
    assert_eq!(text("cbor").as_byte(), None);
    let chunked = DataItem::Byte(
        ByteContent::default()
            .set_indefinite(true)
            .push_bytes(&[1, 2])
            .push_bytes(&[3, 4, 5])
            .clone(),
    );
    assert_eq!(chunked.as_byte(), Some(vec![1, 2, 3, 4, 5]));
    assert!(chunked.is_byte());
    assert!(text("a").is_text());

    let list = DataItem::from(vec![DataItem::from(12u64)]);
    assert!(list.is_array());
    assert_eq!(list.as_array().unwrap(), [DataItem::from(12u64)]);
    let table = map_of(vec![(DataItem::from(1), text("a"))]);
    assert!(table.is_map());
    assert_eq!(table.as_map().unwrap().len(), 1);
    assert_eq!(table.as_array(), None);

    assert_eq!(DataItem::from(true).as_boolean(), Some(true));
    assert!(DataItem::from(true).is_boolean());
    assert!(DataItem::Null.is_null());
    assert!(DataItem::Undefined.is_undefined());
    assert_eq!(
        DataItem::Floating((-20.0f64).to_bits()).as_floating(),
        Some((-20.0f64).to_bits())
    );
    assert!(DataItem::Floating(0).is_floating());
    let simple = DataItem::from(SimpleValue::try_from(10).unwrap());
    assert_eq!(simple.as_simple(), Some(10));
    assert!(simple.is_simple());
    assert!(simple.is_generic_simple());
    assert_eq!(DataItem::from(false).as_simple(), Some(20));
    assert_eq!(DataItem::from(true).as_simple(), Some(21));
    assert_eq!(DataItem::Null.as_simple(), Some(22));
    assert_eq!(DataItem::Undefined.as_simple(), Some(23));
    assert!(DataItem::Null.is_simple());
    assert!(!DataItem::Null.is_generic_simple());
    assert_eq!(DataItem::from(1).as_simple(), None);
    assert_eq!(SimpleValue::try_from(100).unwrap().val(), 100);
    assert_eq!(*SimpleValue::try_from(255).unwrap(), 255);

    for (item, major) in [
        (DataItem::from(1), 0),
        (DataItem::from(-1), 1),
        (bytes(&[]), 2),
        (text(""), 3),
        (list, 4),
        (table, 5),
        (DataItem::Null, 7),
        (DataItem::Floating(0), 7),
        (simple, 7),
    ] {
        assert_eq!(item.major_type(), major);
        assert_eq!(item.encode()[0] >> 5, major);
    }
}

#[test]
fn contents_are_built_chunk_by_chunk() {
    let mut content = ByteContent::default();
    assert!(!content.is_indefinite());
    assert!(content.chunk().is_empty());
    assert_eq!(content.full(), Vec::<u8>::new());
    content.set_bytes(&[1]).add_bytes(&[2, 3]).extend_bytes(&[vec![4], vec![], vec![5, 6]]);
    assert_eq!(content.chunk(), [vec![1], vec![2, 3], vec![4], vec![], vec![5, 6]]);
    assert_eq!(content.full(), vec![1, 2, 3, 4, 5, 6]);
    assert_eq!(DataItem::Byte(content.clone()).encode(), hex::decode("46010203040506").unwrap());
    content.set_indefinite(true);
    assert!(content.is_indefinite());
    assert_eq!(
        DataItem::Byte(content.clone()).encode(),
        hex::decode("5f4101420203410440420506ff").unwrap()
    );
    content.set_bytes(&[9]);
    assert_eq!(content.chunk(), [vec![9]]);
    assert_eq!(ByteContent::from(vec![7, 8]).chunk(), [vec![7, 8]]);

    let mut words = TextContent::default();
    assert_eq!(words.full(), "");
    words.set_string("a").add_string("bc").push_string("");
    assert_eq!(words.chunk(), ["a", "bc", ""]);
    assert_eq!(words.full(), "abc");
    assert!(!words.is_indefinite());
    assert_eq!(TextContent::from("x").chunk(), ["x"]);
    assert_eq!(TextContent::from("y".to_string()).full(), "y");
    let as_bytes = ByteContent::from(words.clone());
    assert_eq!(as_bytes.chunk(), [b"a".to_vec(), b"bc".to_vec(), vec![]]);
    assert_eq!(TextContent::try_from_bytes(&as_bytes).unwrap(), words);
    assert!(TextContent::try_from_bytes(&ByteContent::from(vec![0xff])).is_err());

    let tag = TagContent::from((5, DataItem::Null));
    assert_eq!(tag.number(), 5);
    assert_eq!(tag.content(), &DataItem::Null);

    let mut list = ArrayContent::from(vec![DataItem::from(1)]);
    assert!(!list.is_indefinite());
    list.array_mut()[0] = DataItem::from(2);
    assert_eq!(list.array(), [DataItem::from(2)]);
    let mut table = MapContent::default();
    assert!(!table.is_indefinite());
    table.map_mut().insert(DataItem::from(1), DataItem::from(2));
    assert_eq!(table.map().len(), 1);
    assert_eq!(table.clone(), MapContent::from(table.map().clone()));
}

fn written(item: &DataItem) -> String {
    let mut out = String::new();
    for piece in item.diagnostic() {
        match piece {
            Piece::Text(s) => out.push_str(&s),
            Piece::Float(bits) => out.push_str(&format!("{:?}", f64::from_bits(bits))),
        }
    }
    out
}

#[test]
fn the_notation_quotes_and_counts() {
    assert_eq!(written(&text("a\"b\\c\n")), "\"a\\\"b\\\\c\\n\"");
    assert_eq!(written(&DataItem::Signed(u64::MAX)), "-18446744073709551616");
    assert_eq!(written(&DataItem::from(u64::MAX)), "18446744073709551615");
    assert_eq!(written(&bytes(&[0x00, 0x0f, 0xa0, 0xff])), "h'000fa0ff'");
    assert_eq!(written(&DataItem::Null), "null");
    assert_eq!(written(&DataItem::Undefined), "undefined");
    assert_eq!(written(&DataItem::from(false)), "false");
    assert_eq!(written(&DataItem::Floating(1.5f64.to_bits())), "1.5");
    assert_eq!(written(&DataItem::Floating(1.0e300f64.to_bits())), "1e300");
    assert_eq!(written(&map_of(vec![])), "{}");
    assert_eq!(
        written(&DataItem::from(vec![
            DataItem::Floating(0.5f64.to_bits()),
            DataItem::Floating(f64::NEG_INFINITY.to_bits())
        ])),
        "[0.5, -Infinity]"
    );
    let pieces = DataItem::from(vec![DataItem::Floating(0.5f64.to_bits()), DataItem::from(1)])
        .diagnostic();
    assert!(pieces.contains(&Piece::Float(0.5f64.to_bits())));
    assert_eq!(spell(&pieces), "[float(3fe0000000000000), 1]");
    assert_eq!(
        DataItem::from(TagContent::from((1, DataItem::Floating(0)))).diagnostic_text(),
        "1(float(0000000000000000))"
    );
}

#[test]
fn every_error_says_what_it_is() {
    assert_eq!(Error::Incomplete.message(), "incomplete CBOR bytes");
    assert_eq!(
        Error::IncompleteIndefinite.message(),
        "incomplete indefinite length data"
    );
    assert_eq!(
        Error::InvalidSimple.message(),
        "invalid simple value simple value cannot be between 20-32"
    );
    assert_eq!(
        Error::NotWellFormed("invalid additional number 28".to_string()).message(),
        "not well formed data : invalid additional number 28"
    );
    assert_eq!(
        Error::InvalidBreakStop.message(),
        "break stop position is invalid"
    );
    assert_eq!(Error::SerdeMessage("as given".to_string()).message(), "as given");
    let utf8 = String::from_utf8(vec![0xc3, 0x28]).unwrap_err();
    assert_eq!(Error::FromUtf8(utf8.clone()).message(), utf8.to_string());
    assert_eq!(
        DataItem::decode(&[0x62, 0xc3, 0x28]),
        Err(Error::FromUtf8(utf8))
    );
    let int = u64::try_from(-1i128).unwrap_err();
    assert_eq!(Error::FromInt(int).message(), int.to_string());
    assert_eq!(DataItem::try_from(-18_446_744_073_709_551_617_i128), Err(int));
}

#[test]
fn text_content_is_made_of_bytes_that_are_text() {
    let mut chunks = ByteContent::default();
    chunks.set_indefinite(true).push_bytes("stre".as_bytes()).push_bytes("am".as_bytes());
    let words = TextContent::try_from(chunks).unwrap();
    assert!(words.is_indefinite());
    assert_eq!(words.chunk(), ["stre", "am"]);
    let mut split = ByteContent::default();
    split.set_indefinite(true).push_bytes(&[0xc3]).push_bytes(&[0xbc]);
    assert!(TextContent::try_from(split).is_err());
}

#[test]
fn maps_are_equal_whatever_the_order_of_their_entries() {
    let one = map_of(vec![
        (DataItem::from(1), text("a")),
        (DataItem::from(2), text("b")),
    ]);
    let other = map_of(vec![
        (DataItem::from(2), text("b")),
        (DataItem::from(1), text("a")),
    ]);
    assert_eq!(one, other);
    assert_ne!(one.encode(), other.encode());
    let mut table = IndexMap::new();
    table.insert(one.clone(), 1);
    table.insert(other.clone(), 2);
    table.insert(DataItem::from(vec![one.clone()]), 3);
    table.insert(DataItem::from(vec![other]), 4);
    assert_eq!(table.len(), 2);
    assert_eq!(table[&one], 2);
    let open = DataItem::Mapping(
        MapContent::default()
            .set_indefinite(true)
            .set_content(one.as_map().unwrap())
            .clone(),
    );
    assert_ne!(one, open);
}

#[test]
fn a_length_that_the_input_cannot_hold_is_refused_at_once() {
    let mut array = vec![0x9b];
    array.extend_from_slice(&[0xff; 8]);
    assert_eq!(DataItem::decode(&array), Err(Error::Incomplete));
    let mut map = vec![0xbb];
    map.extend_from_slice(&[0xff; 8]);
    assert_eq!(DataItem::decode(&map), Err(Error::Incomplete));
    let mut bytes = vec![0x5b];
    bytes.extend_from_slice(&[0xff; 8]);
    bytes.push(0);
    assert_eq!(
        DataItem::decode(&bytes),
        Err(Error::NotWellFormed(
            "incomplete array of byte missing 18446744073709551614 byte".to_string()
        ))
    );
}

#[test]
fn items_nest() {
    let mut item = DataItem::from(0);
    let mut expected = vec![0x00];
    for depth in 0..200u64 {
        item = DataItem::from(TagContent::from((depth, DataItem::from(vec![item]))));
        let mut outer = DataItem::from(depth).encode();
        outer[0] |= 0xc0;
        outer.push(0x81);
        outer.extend_from_slice(&expected);
        expected = outer;
    }
    assert_eq!(item.encode(), expected);
    assert_eq!(DataItem::decode(&expected), Ok(item.clone()));
    assert!(item.is_deterministic(&DeterministicMode::Core));
    assert_eq!(item.clone().deterministic(&DeterministicMode::LengthFirst), item);
    assert!(item.check_inner(DataItem::is_array));
    assert_eq!(item.as_tag().unwrap().0, 199);
}

#[test]
fn the_break_byte_is_left_to_the_caller() {
    let input = [0x42, 0x01, 0x02, 0x43, 0x03, 0x04, 0x05, 0xff, 0x00];
    assert_eq!(
        decode_indefinite_byte_or_text(&input, 0, 2),
        Ok((vec![vec![1, 2], vec![3, 4, 5]], 7))
    );
    assert_eq!(decode_indefinite_byte_or_text(&input, 7, 2), Ok((vec![], 7)));
    assert_eq!(
        decode_indefinite_byte_or_text(&input[..7], 0, 2),
        Err(Error::IncompleteIndefinite)
    );
    let whole = [0x5f, 0x42, 0x01, 0x02, 0x43, 0x03, 0x04, 0x05, 0xff, 0x00];
    let (content, next) = decode_byte_or_text(&whole, 1, 2, 31).unwrap();
    assert_eq!(next, 9);
    assert_eq!(content.chunk(), [vec![1, 2], vec![3, 4, 5]]);

    let items = [0x01, 0x02, 0xff, 0x03];
    assert_eq!(
        extract_array_item(&items, 0),
        Ok((vec![DataItem::from(1), DataItem::from(2)], 2))
    );
    assert_eq!(
        extract_array_item(&items[..2], 0),
        Ok((vec![DataItem::from(1), DataItem::from(2)], 2))
    );
    assert_eq!(DataItem::decode(&[0x9f, 0x01, 0x02]), Err(Error::IncompleteIndefinite));
    let (_, at) = extract_map_item(&items, 0).unwrap();
    assert_eq!(at, 2);
    let (_, end) = extract_map_item(&items[..2], 0).unwrap();
    assert_eq!(end, 2);
    assert_eq!(extract_map_item(&items[..1], 0).map(|r| r.1), Err(Error::Incomplete));
}
