use cozo_core::data::compare::{
    check_comparable, compare_key, compare_key_attr_by_id, compare_key_attr_by_kw,
    compare_key_triple_aev, compare_key_triple_ave, compare_key_triple_eav,
    compare_key_triple_vae, compare_key_tx, compare_key_unique_attr_by_id,
    compare_key_unique_attr_by_kw, compare_key_unique_attr_val, compare_key_unique_entity,
    rusty_cmp, try_compare_key,
};
use cozo_core::data::encode::{IndexKey, KeyError};
use cozo_core::data::order::{order_bytes, order_u64, order_u8, reverse};
use cozo_core::data::value::{AttrId, DataValue, EntityId, TxId};
use std::cmp::Ordering;

fn text(s: &str) -> DataValue {
    DataValue::Str(s.to_string())
}

fn eav(e: u64, a: u64, v: DataValue, t: u64) -> Vec<u8> {
    IndexKey::TripleEntityAttrValue { entity: EntityId(e), attr: AttrId(a), value: v, tx: TxId(t) }
        .encode()
}

fn aev(a: u64, e: u64, v: DataValue, t: u64) -> Vec<u8> {
    IndexKey::TripleAttrEntityValue { attr: AttrId(a), entity: EntityId(e), value: v, tx: TxId(t) }
        .encode()
}

fn ave(a: u64, v: DataValue, e: u64, t: u64) -> Vec<u8> {
    IndexKey::TripleAttrValueEntity { attr: AttrId(a), value: v, entity: EntityId(e), tx: TxId(t) }
        .encode()
}

fn vae(r: u64, a: u64, e: u64, t: u64) -> Vec<u8> {
    IndexKey::TripleValueAttrEntity {
        target: EntityId(r),
        attr: AttrId(a),
        entity: EntityId(e),
        tx: TxId(t),
    }
    .encode()
}

fn by_id(a: u64, t: u64) -> Vec<u8> {
    IndexKey::AttrById { attr: AttrId(a), tx: TxId(t) }.encode()
}

fn by_kw(kw: &str, t: u64) -> Vec<u8> {
    IndexKey::AttrByKeyword { keyword: kw.to_string(), tx: TxId(t) }.encode()
}

fn assert_ascending(keys: &[Vec<u8>]) {
    for i in 0..keys.len() {
        for j in 0..keys.len() {
            assert_eq!(compare_key(&keys[i], &keys[j]), i.cmp(&j), "keys {} and {}", i, j);
            assert_eq!(try_compare_key(&keys[i], &keys[j]), Ok(i.cmp(&j)));
        }
    }
}

#[test]
fn order_helpers() {
    assert_eq!(order_u64(1, 2), Ordering::Less);
    assert_eq!(order_u64(2, 2), Ordering::Equal);
    assert_eq!(order_u64(3, 2), Ordering::Greater);
    assert_eq!(order_u8(0, 255), Ordering::Less);
    assert_eq!(order_u8(7, 7), Ordering::Equal);
    assert_eq!(order_u8(9, 1), Ordering::Greater);
    assert_eq!(order_bytes(b"a", b"ab"), Ordering::Less);
    assert_eq!(order_bytes(b"ab", b"ab"), Ordering::Equal);
    assert_eq!(order_bytes(b"b", b"ab"), Ordering::Greater);
    assert_eq!(reverse(Ordering::Less), Ordering::Greater);
    assert_eq!(reverse(Ordering::Equal), Ordering::Equal);
    assert_eq!(reverse(Ordering::Greater), Ordering::Less);
}

#[test]
fn later_transaction_sorts_first_among_equal_facts() {
    let t5 = eav(1, 2, text("a"), 5);
    let t9 = eav(1, 2, text("a"), 9);
    assert_eq!(compare_key(&t9, &t5), Ordering::Less);
    assert_eq!(compare_key(&t5, &t9), Ordering::Greater);
    assert_eq!(compare_key(&t5, &t5), Ordering::Equal);
    assert_eq!(rusty_cmp(&t9, &t5), -1);
    assert_eq!(rusty_cmp(&t5, &t9), 1);
    assert_eq!(rusty_cmp(&t9, &t9), 0);
}

#[test]
fn transaction_20_sorts_before_transaction_10() {
    let t10 = eav(5, 7, text("x"), 10);
    let t20 = eav(5, 7, text("x"), 20);
    assert_eq!(compare_key(&t20, &t10), Ordering::Less);
    assert_eq!(compare_key_triple_eav(&t20, &t10), Ordering::Less);
}

#[test]
fn different_tags_are_ordered_by_tag_whatever_follows() {
    let low = eav(u64::MAX, u64::MAX, text("zzz"), 0);
    let high = aev(0, 0, DataValue::Null, u64::MAX);
    assert_eq!(compare_key(&low, &high), Ordering::Less);
    assert_eq!(compare_key(&high, &low), Ordering::Greater);
    assert_eq!(compare_key(&[1], &[2, 9, 9, 9]), Ordering::Less);
    assert_eq!(compare_key(&[11, 0xff], &[3]), Ordering::Greater);
    assert_eq!(compare_key(&[200, 1], &[100, 2]), Ordering::Greater);
    assert_eq!(try_compare_key(&[200, 1], &[100, 2]), Ok(Ordering::Greater));
    assert_eq!(rusty_cmp(&[1], &[2]), -1);
}

#[test]
fn entity_attr_value_sorts_by_entity_attr_value_then_newest() {
    assert_ascending(&[
        eav(1, 1, DataValue::Int(9), 1),
        eav(1, 2, DataValue::Null, 7),
        eav(1, 2, DataValue::Bool(true), 7),
        eav(1, 2, DataValue::Int(-1), 9),
        eav(1, 2, DataValue::Int(3), 9),
        eav(1, 2, DataValue::Int(3), 8),
        eav(1, 2, DataValue::Float((0.5f64).to_bits()), 1),
        eav(1, 2, text("a"), 9),
        eav(1, 2, text("a"), 5),
        eav(1, 2, text("b"), 100),
        eav(1, 3, DataValue::Null, 0),
        eav(2, 0, DataValue::Null, 0),
        eav(256, 0, DataValue::Null, 0),
    ]);
}

#[test]
fn attr_entity_value_sorts_by_attr_entity_value_then_newest() {
    assert_ascending(&[
        aev(1, 9, text("z"), 1),
        aev(2, 1, text("b"), 1),
        aev(2, 2, text("a"), 9),
        aev(2, 2, text("a"), 5),
        aev(2, 2, text("b"), 7),
        aev(3, 0, DataValue::Null, 0),
    ]);
    let a = aev(2, 2, text("a"), 9);
    let b = aev(2, 2, text("a"), 5);
    assert_eq!(compare_key_triple_aev(&a, &b), Ordering::Less);
}

#[test]
fn attr_value_entity_sorts_by_attr_value_entity_then_newest() {
    assert_ascending(&[
        ave(1, text("z"), 9, 1),
        ave(2, text("a"), 7, 1),
        ave(2, text("a"), 8, 9),
        ave(2, text("a"), 8, 5),
        ave(2, text("b"), 1, 7),
        ave(3, DataValue::Null, 0, 0),
    ]);
    let a = ave(2, text("a"), 8, 1);
    let b = ave(2, text("b"), 1, 7);
    assert_eq!(compare_key_triple_ave(&a, &b), Ordering::Less);
    assert_eq!(compare_key_triple_ave(&b, &a), Ordering::Greater);
}

#[test]
fn value_attr_entity_sorts_by_target_attr_entity_then_newest() {
    assert_ascending(&[
        vae(1, 9, 9, 0),
        vae(2, 1, 9, 0),
        vae(2, 2, 1, 0),
        vae(2, 2, 2, 9),
        vae(2, 2, 2, 5),
        vae(3, 0, 0, 0),
    ]);
    assert_eq!(compare_key_triple_vae(&vae(2, 2, 2, 9), &vae(2, 2, 2, 5)), Ordering::Less);
}

#[test]
fn attr_by_id_sorts_by_id_then_newest() {
    assert_ascending(&[by_id(1, 0), by_id(2, 9), by_id(2, 5), by_id(3, 100)]);
    assert_eq!(compare_key_attr_by_id(&by_id(2, 9), &by_id(2, 5)), Ordering::Less);
    assert_eq!(compare_key_attr_by_id(&by_id(1, 5), &by_id(2, 9)), Ordering::Less);
}

#[test]
fn attr_by_keyword_sorts_by_name_then_newest() {
    assert_ascending(&[
        by_kw("", 0),
        by_kw("a", 9),
        by_kw("a", 5),
        by_kw("ab", 100),
        by_kw("b", 0),
        by_kw("\u{e9}", 0),
    ]);
    assert_eq!(compare_key_attr_by_kw(&by_kw("a", 9), &by_kw("a", 5)), Ordering::Less);
    assert_eq!(compare_key_attr_by_kw(&by_kw("b", 9), &by_kw("a", 5)), Ordering::Greater);
}

#[test]
fn transactions_sort_newest_first() {
    let tx = |t: u64| IndexKey::Tx { tx: TxId(t) }.encode();
    assert_ascending(&[tx(u64::MAX), tx(1 << 32), tx(256), tx(255), tx(1), tx(0)]);
    assert_eq!(compare_key_tx(&tx(9), &tx(5)), Ordering::Less);
    assert_eq!(compare_key_tx(b"b", b"a"), Ordering::Less);
    assert_eq!(compare_key_tx(b"a", b"a"), Ordering::Equal);
}

#[test]
fn unique_keys_sort_by_their_fields() {
    let entity = |e: u64| IndexKey::UniqueEntity { entity: EntityId(e) }.encode();
    assert_ascending(&[entity(0), entity(1), entity(255), entity(256), entity(u64::MAX)]);
    let attr = |a: u64| IndexKey::UniqueAttrById { attr: AttrId(a) }.encode();
    assert_ascending(&[attr(0), attr(1), attr(255), attr(256), attr(u64::MAX)]);
    let kw = |k: &str| IndexKey::UniqueAttrByKeyword { keyword: k.to_string() }.encode();
    assert_ascending(&[kw(""), kw("a"), kw("a\0"), kw("ab"), kw("b")]);
    let val = |a: u64, v: DataValue| IndexKey::UniqueAttrValue { attr: AttrId(a), value: v }.encode();
    assert_ascending(&[
        val(1, text("z")),
        val(2, DataValue::Null),
        val(2, DataValue::Int(1)),
        val(2, text("a")),
        val(3, DataValue::Null),
    ]);
    assert_eq!(compare_key_unique_entity(&entity(1), &entity(2)), Ordering::Less);
    assert_eq!(compare_key_unique_attr_by_id(&attr(3), &attr(2)), Ordering::Greater);
    assert_eq!(compare_key_unique_attr_by_kw(&kw("a"), &kw("a")), Ordering::Equal);
    assert_eq!(
        compare_key_unique_attr_val(&val(2, DataValue::Int(1)), &val(2, text("a"))),
        Ordering::Less
    );
}

#[test]
fn keys_of_all_kinds_sort_kind_by_kind() {
    assert_ascending(&[
        eav(9, 9, text("z"), 0),
        aev(0, 0, DataValue::Null, 0),
        ave(0, DataValue::Null, 0, 0),
        vae(0, 0, 0, 0),
        by_id(0, 0),
        by_kw("", 0),
        IndexKey::Tx { tx: TxId(0) }.encode(),
        IndexKey::UniqueEntity { entity: EntityId(0) }.encode(),
        IndexKey::UniqueAttrValue { attr: AttrId(0), value: DataValue::Null }.encode(),
        IndexKey::UniqueAttrById { attr: AttrId(0) }.encode(),
        IndexKey::UniqueAttrByKeyword { keyword: String::new() }.encode(),
    ]);
}

#[test]
fn sorting_with_the_comparator_puts_newest_versions_first() {
    let mut keys = vec![
        eav(1, 2, text("a"), 5),
        eav(1, 1, text("b"), 1),
        eav(1, 2, text("a"), 9),
        eav(1, 2, DataValue::Int(4), 2),
        eav(1, 2, text("a"), 7),
    ];
    keys.sort_by(|a, b| compare_key(a, b));
    assert_eq!(
        keys,
        vec![
            eav(1, 1, text("b"), 1),
            eav(1, 2, DataValue::Int(4), 2),
            eav(1, 2, text("a"), 9),
            eav(1, 2, text("a"), 7),
            eav(1, 2, text("a"), 5),
        ]
    );
}

#[test]
fn byte_strings_that_cannot_be_compared_are_reported() {
    let good = eav(1, 2, text("a"), 5);
    assert_eq!(try_compare_key(&[], &good), Err(KeyError::Malformed));
    assert_eq!(try_compare_key(&good, &[]), Err(KeyError::Malformed));
    assert_eq!(try_compare_key(&[0, 1], &[0, 2]), Err(KeyError::UnknownTag(0)));
    assert_eq!(try_compare_key(&[12], &[12]), Err(KeyError::UnknownTag(12)));
    assert_eq!(try_compare_key(&good, &good[..20]), Err(KeyError::Malformed));
    assert_eq!(try_compare_key(&good[..26], &good), Err(KeyError::Malformed));
    assert_eq!(try_compare_key(&[5, 1, 2], &[5, 1, 2]), Err(KeyError::Malformed));
    assert_eq!(try_compare_key(&[6, 1, 2], &[6, 1, 2]), Err(KeyError::Malformed));
    assert_eq!(try_compare_key(&[9, 1, 2], &[9, 1, 2]), Err(KeyError::Malformed));
    assert_eq!(try_compare_key(&[4; 32], &[4; 33]), Err(KeyError::Malformed));
    assert_eq!(try_compare_key(&[7, 1], &[7, 2]), Ok(Ordering::Greater));
}

#[test]
fn check_comparable_tells_what_is_wrong() {
    assert_eq!(check_comparable(&eav(1, 2, text("a"), 5)), Ok(()));
    assert_eq!(check_comparable(&[8]), Ok(()));
    assert_eq!(check_comparable(&[]), Err(KeyError::Malformed));
    assert_eq!(check_comparable(&[77, 1]), Err(KeyError::UnknownTag(77)));
    assert_eq!(check_comparable(&[1, 2, 3]), Err(KeyError::Malformed));
    assert_eq!(check_comparable(&[4; 33]), Ok(()));
    assert_eq!(check_comparable(&[5; 17]), Ok(()));
}
