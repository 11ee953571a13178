use hocuspocu_rs::connection::read_only_ack;
use hocuspocu_rs::update_shape::is_readable_update;
use std::collections::HashMap;
use std::sync::Arc;
use yrs::types::Attrs;
use yrs::{Any, Array, Doc, ReadTxn, StateVector, Text, Transact, XmlElementPrelim, XmlFragment};

fn full_update(doc: &Doc) -> Vec<u8> {
    doc.transact().encode_state_as_update_v1(&StateVector::default())
}

#[test]
fn text_edits_and_deletions_are_readable() {
    let doc = Doc::with_client_id(7);
    let text = doc.get_or_insert_text("content");
    text.push(&mut doc.transact_mut(), "hello wörld 𝄞 and more");
    text.remove_range(&mut doc.transact_mut(), 1, 3);
    text.push(&mut doc.transact_mut(), "!");
    let update = full_update(&doc);
    assert!(is_readable_update(&update), "{:?}", update);
}

#[test]
fn nested_values_and_formats_are_readable() {
    let doc = Doc::with_client_id(11);
    let map = doc.get_or_insert_map("settings");
    let array = doc.get_or_insert_array("items");
    let text = doc.get_or_insert_text("rich");
    {
        let mut txn = doc.transact_mut();
        let mut inner = HashMap::new();
        inner.insert("n".to_string(), Any::Number(1.5));
        inner.insert("big".to_string(), Any::BigInt(1 << 40));
        inner.insert(
            "list".to_string(),
            Any::Array(vec![Any::Bool(true), Any::Null, Any::String("x".into())].into()),
        );
        yrs::Map::insert(&map, &mut txn, "obj", Any::Map(Arc::new(inner)));
        yrs::Map::insert(&map, &mut txn, "bytes", Any::Buffer(vec![1u8, 2, 3].into()));
        yrs::Map::insert(&map, &mut txn, "neg", Any::Number(-42.0));
        array.push_back(&mut txn, Any::Undefined);
        array.push_back(&mut txn, "word");
        text.push(&mut txn, "plain");
        let mut attrs: Attrs = HashMap::new();
        attrs.insert(Arc::from("bold"), Any::Bool(true));
        text.format(&mut txn, 0, 3, attrs);
    }
    let update = full_update(&doc);
    assert!(is_readable_update(&update));
}

#[test]
fn xml_and_subdocuments_are_readable() {
    let doc = Doc::with_client_id(3);
    let frag = doc.get_or_insert_xml_fragment("xml");
    let map = doc.get_or_insert_map("docs");
    {
        let mut txn = doc.transact_mut();
        frag.insert(&mut txn, 0, XmlElementPrelim::empty("p"));
        yrs::Map::insert(&map, &mut txn, "sub", Doc::new());
    }
    let update = full_update(&doc);
    assert!(is_readable_update(&update));
}

#[test]
fn a_client_with_no_blocks_is_not_readable() {
    // one client section with no block, then an empty delete set
    let update = [1u8, 0, 1, 0, 0];
    assert!(!is_readable_update(&update));
    assert!(!read_only_ack(&update, &vec![(1, 10)]));
}

#[test]
fn an_empty_update_is_readable() {
    // no client sections and an empty delete set
    let update = [0u8, 0];
    assert!(is_readable_update(&update));
    assert!(read_only_ack(&update, &vec![]));
}

#[test]
fn clocks_past_the_32_bit_range_are_not_readable() {
    // one client, two skips of length u32::MAX
    let mut update = vec![1u8, 2, 1, 0];
    for _ in 0..2 {
        update.push(10);
        update.extend([0xff, 0xff, 0xff, 0xff, 0x0f]);
    }
    update.push(0);
    assert!(!is_readable_update(&update));
    // a single short skip is fine
    let short = [1u8, 1, 1, 0, 10, 5, 0];
    assert!(is_readable_update(&short));
}

#[test]
fn truncated_and_garbage_updates_are_not_readable() {
    let doc = Doc::with_client_id(7);
    let text = doc.get_or_insert_text("content");
    text.push(&mut doc.transact_mut(), "hello");
    let update = full_update(&doc);
    assert!(!is_readable_update(&update[..update.len() - 3]));
    assert!(!is_readable_update(&[0xff, 0xff, 0xff]));
    assert!(!is_readable_update(&[]));
}

#[test]
fn long_and_wrapping_varints_are_read_as_yrs_reads_them() {
    // a section count of zero written in three bytes, then an empty delete set
    let padded = [0x80u8, 0x80, 0x00, 0x00];
    assert!(is_readable_update(&padded));
    assert!(read_only_ack(&padded, &vec![]));
    // eleven bytes is the longest the decoder takes
    let mut eleven = vec![0x80u8; 10];
    eleven.push(0x00);
    eleven.push(0x00);
    assert!(is_readable_update(&eleven));
    let mut twelve = vec![0x80u8; 11];
    twelve.push(0x00);
    twelve.push(0x00);
    assert!(!is_readable_update(&twelve));
}

#[test]
fn long_signed_integers_in_values() {
    // one client (1), one block, client 1, clock 0; an item with a parent name
    // "m" and a key "k" holding one value: an integer written in `n` bytes
    let item = |int_bytes: &[u8]| {
        let mut u = vec![1u8, 1, 1, 0];
        u.push(0x28); // values content, with a key in the parent
        u.extend([1, 1, b'm']); // parent given by name
        u.extend([1, b'k']); // key
        u.push(1); // one value
        u.push(125); // an integer
        u.extend_from_slice(int_bytes);
        u.push(0); // empty delete set
        u
    };
    assert!(is_readable_update(&item(&[0x05])));
    let mut ten = vec![0x81u8; 9];
    ten.push(0x01);
    assert!(is_readable_update(&item(&ten)));
    let mut eleven = vec![0x81u8; 10];
    eleven.push(0x01);
    assert!(!is_readable_update(&item(&eleven)));
}
