use rust_document_generator::file::{decode_items, frame_item, ItemType, LogError, FILE_NAME};

fn log_of(records: &[(ItemType, &str)]) -> Vec<u8> {
    let mut out = Vec::new();
    for (kind, text) in records {
        out.extend(frame_item(*kind, text));
    }
    out
}

#[test]
fn frame_layout_is_length_tag_payload() {
    assert_eq!(frame_item(ItemType::Header, "ab"), vec![3, 0, 0, 0, 0, b'a', b'b']);
    assert_eq!(frame_item(ItemType::Api, ""), vec![1, 0, 0, 0, 1]);
}

#[test]
fn frame_length_counts_utf8_bytes() {
    let f = frame_item(ItemType::Api, "é");
    assert_eq!(f, vec![3, 0, 0, 0, 1, 0xC3, 0xA9]);
}

#[test]
fn frame_length_is_little_endian() {
    let text = "x".repeat(300);
    let f = frame_item(ItemType::Api, &text);
    assert_eq!(&f[..5], &[45, 1, 0, 0, 1]);
    assert_eq!(f.len(), 305);
}

#[test]
fn records_read_back_in_write_order() {
    let data = log_of(&[
        (ItemType::Header, "head"),
        (ItemType::Api, "one"),
        (ItemType::Api, "twö"),
    ]);
    let items = decode_items(&data).unwrap();
    assert_eq!(items.len(), 3);
    assert_eq!((items[0].item_type, items[0].content.as_str()), (0, "head"));
    assert_eq!((items[1].item_type, items[1].content.as_str()), (1, "one"));
    assert_eq!((items[2].item_type, items[2].content.as_str()), (1, "twö"));
}

#[test]
fn truncated_trailing_record_is_dropped() {
    let data = log_of(&[(ItemType::Api, "one"), (ItemType::Api, "two")]);
    let first_len = frame_item(ItemType::Api, "one").len();
    for cut in first_len + 1..data.len() {
        let items = decode_items(&data[..cut]).unwrap();
        assert_eq!(items.len(), 1, "cut at {}", cut);
        assert_eq!(items[0].content, "one");
    }
    for cut in 1..first_len {
        assert!(decode_items(&data[..cut]).unwrap().is_empty());
    }
}

#[test]
fn empty_log_has_no_items() {
    assert!(decode_items(&[]).unwrap().is_empty());
    assert!(decode_items(&[5, 0, 0]).unwrap().is_empty());
}

#[test]
fn invalid_utf8_payload_fails() {
    let data = vec![3, 0, 0, 0, 1, 0xFF, 0xFE];
    assert_eq!(decode_items(&data).unwrap_err(), LogError::InvalidText);
}

#[test]
fn record_without_tag_fails() {
    let mut data = log_of(&[(ItemType::Api, "ok")]);
    data.extend([0, 0, 0, 0]);
    assert_eq!(decode_items(&data).unwrap_err(), LogError::MissingTag);
}

#[test]
fn unknown_tag_is_passed_through() {
    let data = vec![2, 0, 0, 0, 7, b'z'];
    let items = decode_items(&data).unwrap();
    assert_eq!((items[0].item_type, items[0].content.as_str()), (7, "z"));
}

#[test]
fn log_file_name() {
    assert_eq!(FILE_NAME, "doc.data");
}
