use cozo_core::data::encode::{
    decode_ae_key, decode_attr_key_by_id, decode_attr_key_by_kw, decode_ea_key,
    decode_unique_attr_val, decode_vae_key, decode_value_from_key, read_whole_keyword, IndexKey,
    KeyError, StorageTag, TRIPLE_PREFIX_LEN,
};
use cozo_core::data::tuple::{decode_tuple_from_key, encode_as_key, DB_KEY_PREFIX_LEN};
use cozo_core::data::value::{AttrId, DataValue, EntityId, TxId};
use cozo_core::runtime::relation::{RelationId, RELATION_ID_LEN, SYSTEM_RELATION};

fn text(s: &str) -> DataValue {
    DataValue::Str(s.to_string())
}

fn values() -> Vec<DataValue> {
    vec![
        DataValue::Null,
        DataValue::Bool(true),
        DataValue::Int(-3),
        DataValue::Float((2.5f64).to_bits()),
        text("x\0y"),
        DataValue::EnId(EntityId(77)),
    ]
}

fn all_kinds(value: DataValue) -> Vec<IndexKey> {
    let entity = EntityId(5);
    let attr = AttrId(7);
    let tx = TxId(10);
    vec![
        IndexKey::TripleEntityAttrValue { entity, attr, value: value.clone(), tx },
        IndexKey::TripleAttrEntityValue { attr, entity, value: value.clone(), tx },
        IndexKey::TripleAttrValueEntity { attr, value: value.clone(), entity, tx },
        IndexKey::TripleValueAttrEntity { target: EntityId(99), attr, entity, tx },
        IndexKey::AttrById { attr, tx },
        IndexKey::AttrByKeyword { keyword: "name".to_string(), tx },
        IndexKey::Tx { tx },
        IndexKey::UniqueEntity { entity },
        IndexKey::UniqueAttrValue { attr, value },
        IndexKey::UniqueAttrById { attr },
        IndexKey::UniqueAttrByKeyword { keyword: "name".to_string() },
    ]
}

#[test]
fn tags_stand_for_bytes_one_to_eleven() {
    let tags = [
        StorageTag::TripleEntityAttrValue,
        StorageTag::TripleAttrEntityValue,
        StorageTag::TripleAttrValueEntity,
        StorageTag::TripleValueAttrEntity,
        StorageTag::AttrById,
        StorageTag::AttrByKeyword,
        StorageTag::Tx,
        StorageTag::UniqueEntity,
        StorageTag::UniqueAttrValue,
        StorageTag::UniqueAttrById,
        StorageTag::UniqueAttrByKeyword,
    ];
    for (i, tag) in tags.iter().enumerate() {
        let byte = (i + 1) as u8;
        assert_eq!(tag.to_byte(), byte);
        assert_eq!(StorageTag::try_from(byte), Ok(*tag));
    }
    assert_eq!(StorageTag::try_from(0), Err(0));
    assert_eq!(StorageTag::try_from(12), Err(12));
    assert_eq!(StorageTag::try_from(255), Err(255));
}

#[test]
fn entity_attr_value_key_is_laid_out_field_by_field() {
    let key = IndexKey::TripleEntityAttrValue {
        entity: EntityId(1),
        attr: AttrId(2),
        value: text("a"),
        tx: TxId(5),
    };
    let mut expected = vec![1u8];
    expected.extend_from_slice(&[0, 0, 0, 0, 0, 0, 0, 1]);
    expected.extend_from_slice(&[0, 0, 0, 0, 0, 0, 0, 2]);
    expected.extend_from_slice(&[0, 0, 0, 0, 0, 0, 0, 5]);
    expected.extend_from_slice(&[0x05, b'a', 0, 0]);
    assert_eq!(key.encode(), expected);
    assert_eq!(TRIPLE_PREFIX_LEN, 25);
}

#[test]
fn attr_first_keys_put_the_attribute_first() {
    let aev = IndexKey::TripleAttrEntityValue {
        attr: AttrId(2),
        entity: EntityId(1),
        value: DataValue::Null,
        tx: TxId(5),
    }
    .encode();
    assert_eq!(aev[0], 2);
    assert_eq!(aev[8], 2);
    assert_eq!(aev[16], 1);
    assert_eq!(aev[24], 5);
    assert_eq!(aev[25..], [0x01]);
    let ave = IndexKey::TripleAttrValueEntity {
        attr: AttrId(2),
        value: DataValue::Null,
        entity: EntityId(1),
        tx: TxId(5),
    }
    .encode();
    assert_eq!(ave[0], 3);
    assert_eq!(ave[1..], aev[1..]);
}

#[test]
fn short_keys_are_laid_out_field_by_field() {
    assert_eq!(
        IndexKey::TripleValueAttrEntity {
            target: EntityId(9),
            attr: AttrId(2),
            entity: EntityId(1),
            tx: TxId(5)
        }
        .encode(),
        vec![
            4, 0, 0, 0, 0, 0, 0, 0, 9, 0, 0, 0, 0, 0, 0, 0, 2, 0, 0, 0, 0, 0, 0, 0, 1, 0, 0, 0, 0,
            0, 0, 0, 5
        ]
    );
    assert_eq!(
        IndexKey::AttrById { attr: AttrId(2), tx: TxId(5) }.encode(),
        vec![5, 0, 0, 0, 0, 0, 0, 0, 2, 0, 0, 0, 0, 0, 0, 0, 5]
    );
    assert_eq!(
        IndexKey::AttrByKeyword { keyword: "k".to_string(), tx: TxId(5) }.encode(),
        vec![6, 0, 0, 0, 0, 0, 0, 0, 5, b'k', 0, 0]
    );
    assert_eq!(IndexKey::Tx { tx: TxId(5) }.encode(), vec![7, 0, 0, 0, 0, 0, 0, 0, 5]);
    assert_eq!(
        IndexKey::UniqueEntity { entity: EntityId(1) }.encode(),
        vec![8, 0, 0, 0, 0, 0, 0, 0, 1]
    );
    assert_eq!(
        IndexKey::UniqueAttrValue { attr: AttrId(2), value: DataValue::Bool(true) }.encode(),
        vec![9, 0, 0, 0, 0, 0, 0, 0, 2, 0x02, 1]
    );
    assert_eq!(
        IndexKey::UniqueAttrById { attr: AttrId(2) }.encode(),
        vec![10, 0, 0, 0, 0, 0, 0, 0, 2]
    );
    assert_eq!(
        IndexKey::UniqueAttrByKeyword { keyword: "k".to_string() }.encode(),
        vec![11, b'k', 0, 0]
    );
}

#[test]
fn every_kind_and_value_type_is_decoded_as_encoded() {
    for value in values() {
        for key in all_kinds(value) {
            let bytes = key.encode();
            assert_eq!(bytes[0], key.tag().to_byte());
            assert_eq!(IndexKey::decode(&bytes), Ok(key));
        }
    }
}

#[test]
fn what_decodes_encodes_to_the_same_bytes() {
    for value in values() {
        for key in all_kinds(value) {
            let bytes = key.encode();
            assert_eq!(IndexKey::decode(&bytes).unwrap().encode(), bytes);
        }
    }
}

#[test]
fn empty_key_is_malformed() {
    assert_eq!(IndexKey::decode(&[]), Err(KeyError::Malformed));
}

#[test]
fn unknown_tag_is_reported_with_its_byte() {
    assert_eq!(IndexKey::decode(&[0, 1, 2]), Err(KeyError::UnknownTag(0)));
    assert_eq!(IndexKey::decode(&[12]), Err(KeyError::UnknownTag(12)));
    assert_eq!(IndexKey::decode(&[0xff, 0, 0, 0, 0, 0, 0, 0, 0]), Err(KeyError::UnknownTag(0xff)));
}

#[test]
fn truncated_and_overlong_keys_are_malformed() {
    for value in values() {
        for key in all_kinds(value) {
            let bytes = key.encode();
            assert_eq!(IndexKey::decode(&bytes[..bytes.len() - 1]), Err(KeyError::Malformed));
            let mut longer = bytes.clone();
            longer.push(0x01);
            assert_eq!(IndexKey::decode(&longer), Err(KeyError::Malformed));
        }
    }
}

#[test]
fn keyword_that_is_not_utf8_is_malformed() {
    assert_eq!(IndexKey::decode(&[11, 0xff, 0, 0]), Err(KeyError::Malformed));
    assert_eq!(
        IndexKey::decode(&[11, 0xc3, 0xa9, 0, 0]),
        Ok(IndexKey::UniqueAttrByKeyword { keyword: "\u{e9}".to_string() })
    );
    assert_eq!(read_whole_keyword(&[0xc3, 0xa9, 0, 0], 0), Some("\u{e9}".to_string()));
    assert_eq!(read_whole_keyword(&[0xc3, 0xa9, 0, 0, 0], 0), None);
}

#[test]
fn partial_decoders_read_the_fields_they_are_named_for() {
    let eav = IndexKey::TripleEntityAttrValue {
        entity: EntityId(1),
        attr: AttrId(2),
        value: text("v"),
        tx: TxId(3),
    }
    .encode();
    assert_eq!(decode_ea_key(&eav), Ok((EntityId(1), AttrId(2), TxId(3))));
    assert_eq!(decode_value_from_key(&eav), Ok(text("v")));
    let aev = IndexKey::TripleAttrEntityValue {
        attr: AttrId(2),
        entity: EntityId(1),
        value: DataValue::Int(4),
        tx: TxId(3),
    }
    .encode();
    assert_eq!(decode_ae_key(&aev), Ok((AttrId(2), EntityId(1), TxId(3))));
    assert_eq!(decode_value_from_key(&aev), Ok(DataValue::Int(4)));
    let vae = IndexKey::TripleValueAttrEntity {
        target: EntityId(9),
        attr: AttrId(2),
        entity: EntityId(1),
        tx: TxId(3),
    }
    .encode();
    assert_eq!(decode_vae_key(&vae), Ok((EntityId(9), AttrId(2), EntityId(1), TxId(3))));
    let by_id = IndexKey::AttrById { attr: AttrId(2), tx: TxId(3) }.encode();
    assert_eq!(decode_attr_key_by_id(&by_id), Ok((AttrId(2), TxId(3))));
    let by_kw = IndexKey::AttrByKeyword { keyword: "kw".to_string(), tx: TxId(3) }.encode();
    assert_eq!(decode_attr_key_by_kw(&by_kw), Ok(("kw".to_string(), TxId(3))));
    let unique = IndexKey::UniqueAttrValue { attr: AttrId(2), value: DataValue::Null }.encode();
    assert_eq!(decode_unique_attr_val(&unique), Ok((AttrId(2), DataValue::Null)));
}

#[test]
fn partial_decoders_refuse_short_keys() {
    assert_eq!(decode_ea_key(&[1; 24]), Err(KeyError::Malformed));
    assert_eq!(decode_ae_key(&[2; 24]), Err(KeyError::Malformed));
    assert_eq!(decode_vae_key(&[4; 32]), Err(KeyError::Malformed));
    assert_eq!(decode_value_from_key(&[1; 25]), Err(KeyError::Malformed));
    assert_eq!(decode_value_from_key(&[1; 3]), Err(KeyError::Malformed));
    assert_eq!(decode_attr_key_by_id(&[5; 16]), Err(KeyError::Malformed));
    assert_eq!(decode_attr_key_by_kw(&[6; 8]), Err(KeyError::Malformed));
    assert_eq!(decode_attr_key_by_kw(&[6; 9]), Err(KeyError::Malformed));
    assert_eq!(decode_unique_attr_val(&[9; 8]), Err(KeyError::Malformed));
    assert_eq!(decode_unique_attr_val(&[9; 9]), Err(KeyError::Malformed));
}

#[test]
fn relation_id_is_stored_as_eight_big_endian_bytes() {
    assert_eq!(RELATION_ID_LEN, 8);
    assert_eq!(SYSTEM_RELATION, 0);
    assert_eq!(RelationId::system(), RelationId(0));
    assert_eq!(RelationId::new(42), RelationId(42));
    assert_eq!(RelationId(42).raw_encode(), vec![0, 0, 0, 0, 0, 0, 0, 42]);
    assert_eq!(RelationId(0x0102_0304_0506_0708).raw_encode(), vec![1, 2, 3, 4, 5, 6, 7, 8]);
    assert_eq!(RelationId::raw_decode(&[0, 0, 0, 0, 0, 0, 1, 0]), RelationId(256));
    assert_eq!(RelationId::raw_decode(&[0, 0, 0, 0, 0, 0, 1, 0, 9, 9]), RelationId(256));
    assert_eq!(RelationId::try_raw_decode(&[0, 0, 0, 0, 0, 0, 1, 0]), Some(RelationId(256)));
    assert_eq!(RelationId::try_raw_decode(&[0, 0, 0, 0, 0, 0, 1]), None);
    assert_eq!(RelationId::try_raw_decode(&[]), None);
}

#[test]
fn relation_ids_count_up_until_they_are_used_up() {
    assert_eq!(RelationId(0).next(), Some(RelationId(1)));
    assert_eq!(RelationId(41).next(), Some(RelationId(42)));
    assert_eq!(RelationId(u64::MAX).next(), None);
}

#[test]
fn row_key_is_relation_id_then_values() {
    assert_eq!(DB_KEY_PREFIX_LEN, 8);
    let row = vec![DataValue::Null, DataValue::Int(1), text("a")];
    let key = encode_as_key(&row, RelationId(3));
    let mut expected = vec![0u8, 0, 0, 0, 0, 0, 0, 3];
    expected.push(0x01);
    expected.extend_from_slice(&[0x03, 0x80, 0, 0, 0, 0, 0, 0, 1]);
    expected.extend_from_slice(&[0x05, b'a', 0, 0]);
    assert_eq!(key, expected);
    assert_eq!(encode_as_key(&[], RelationId(3)), vec![0, 0, 0, 0, 0, 0, 0, 3]);
}

#[test]
fn row_key_is_decoded_as_encoded() {
    let row = values();
    let key = encode_as_key(&row, RelationId(1 << 40));
    assert_eq!(decode_tuple_from_key(&key), Some((RelationId(1 << 40), row)));
    assert_eq!(
        decode_tuple_from_key(&[0, 0, 0, 0, 0, 0, 0, 9]),
        Some((RelationId(9), Vec::new()))
    );
}

#[test]
fn malformed_row_keys_are_not_decoded() {
    assert_eq!(decode_tuple_from_key(&[0, 0, 0]), None);
    assert_eq!(decode_tuple_from_key(&[0, 0, 0, 0, 0, 0, 0, 9, 0x02]), None);
    assert_eq!(decode_tuple_from_key(&[0, 0, 0, 0, 0, 0, 0, 9, 0x01, 0x00]), None);
}
