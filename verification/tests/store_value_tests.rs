use rm8::entry_id::EntryId;
use rm8::errors::DecodeError;
use rm8::store_value::as_entry_id;
use rm8::store_value::as_stream_entry;
use rm8::store_value::as_string;
use rm8::store_value::decode_stream_reply;
use rm8::store_value::StoreValue;

fn data(s: &str) -> StoreValue {
    StoreValue::Data(s.as_bytes().to_vec())
}

fn entry_value(id: &str, pairs: &[(&str, &str)]) -> StoreValue {
    let mut items: Vec<StoreValue> = Vec::new();
    for (k, v) in pairs {
        items.push(data(k));
        items.push(data(v));
    }
    StoreValue::Bulk(vec![data(id), StoreValue::Bulk(items)])
}

fn reply(entries: Vec<StoreValue>) -> StoreValue {
    StoreValue::Bulk(vec![StoreValue::Bulk(vec![data("rm8"), StoreValue::Bulk(entries)])])
}

#[test]
fn as_string_decodes_data() {
    assert_eq!(as_string(&data("On")).unwrap(), "On");
}

#[test]
fn as_string_rejects_other_shapes() {
    assert_eq!(as_string(&StoreValue::Int(7)).unwrap_err(), DecodeError::ExpectedData);
    assert_eq!(as_string(&StoreValue::Nil).unwrap_err(), DecodeError::ExpectedData);
    assert_eq!(
        as_string(&StoreValue::Data(vec![0xc0])).unwrap_err(),
        DecodeError::InvalidUtf8
    );
}

#[test]
fn as_entry_id_accepts_data_and_status() {
    assert_eq!(as_entry_id(&data("1-2")).unwrap(), "1-2");
    assert_eq!(as_entry_id(&StoreValue::Status("1-2".to_string())).unwrap(), "1-2");
    assert_eq!(as_entry_id(&StoreValue::Int(3)).unwrap_err(), DecodeError::ExpectedEntryId);
}

#[test]
fn stream_entry_decodes_id_and_fields() {
    let v = entry_value("1234-5", &[("relay", "1"), ("state", "On")]);
    let (id, fields) = as_stream_entry(&v).unwrap();
    assert_eq!(id, EntryId::new(1234, 5));
    assert_eq!(
        fields,
        vec![
            ("relay".to_string(), "1".to_string()),
            ("state".to_string(), "On".to_string()),
        ]
    );
}

#[test]
fn stream_entry_rejects_wrong_shapes() {
    assert_eq!(as_stream_entry(&StoreValue::Nil).unwrap_err(), DecodeError::ExpectedBulk);
    assert_eq!(
        as_stream_entry(&StoreValue::Bulk(vec![data("1-2")])).unwrap_err(),
        DecodeError::MalformedStreamEntry
    );
    assert_eq!(
        as_stream_entry(&StoreValue::Bulk(vec![data("nope"), StoreValue::Bulk(vec![])]))
            .unwrap_err(),
        DecodeError::IllegalEntryId
    );
    assert_eq!(
        as_stream_entry(&StoreValue::Bulk(vec![data("1-2"), data("x")])).unwrap_err(),
        DecodeError::ExpectedBulk
    );
    assert_eq!(
        as_stream_entry(
            &StoreValue::Bulk(vec![data("1-2"), StoreValue::Bulk(vec![data("odd")])])
        )
        .unwrap_err(),
        DecodeError::OddFieldCount
    );
}

#[test]
fn nil_reply_is_an_empty_batch() {
    assert_eq!(decode_stream_reply(&StoreValue::Nil).unwrap(), vec![]);
}

#[test]
fn reply_decodes_entries_in_order() {
    let v = reply(vec![
        entry_value("1-0", &[("relay", "1"), ("state", "On")]),
        entry_value("1-1", &[("relay", "2"), ("state", "Off")]),
    ]);
    let decoded = decode_stream_reply(&v).unwrap();
    assert_eq!(decoded.len(), 2);
    assert_eq!(decoded[0].0, EntryId::new(1, 0));
    assert_eq!(decoded[1].0, EntryId::new(1, 1));
    assert_eq!(decoded[1].1[0], ("relay".to_string(), "2".to_string()));
}

#[test]
fn reply_rejects_wrong_shapes() {
    assert_eq!(
        decode_stream_reply(&StoreValue::Int(1)).unwrap_err(),
        DecodeError::ExpectedBulk
    );
    let two_streams = StoreValue::Bulk(vec![
        StoreValue::Bulk(vec![data("a"), StoreValue::Bulk(vec![])]),
        StoreValue::Bulk(vec![data("b"), StoreValue::Bulk(vec![])]),
    ]);
    assert_eq!(
        decode_stream_reply(&two_streams).unwrap_err(),
        DecodeError::UnexpectedStreamCount
    );
    let missing_entries = StoreValue::Bulk(vec![StoreValue::Bulk(vec![data("rm8")])]);
    assert_eq!(
        decode_stream_reply(&missing_entries).unwrap_err(),
        DecodeError::MalformedReply
    );
    let bad_inner = StoreValue::Bulk(vec![StoreValue::Bulk(vec![data("rm8"), data("x")])]);
    assert_eq!(decode_stream_reply(&bad_inner).unwrap_err(), DecodeError::ExpectedBulk);
}
