use kv_list::error::ListError;
use kv_list::record::{Record, Tag};

#[test]
fn record_bytes_layout() {
    let r = Record::from_data(Tag::List, vec![9, 8]);
    assert_eq!(r.to_bytes(), vec![1, 9, 8]);
    let t = Record::from_data(Tag::Table, vec![]);
    assert_eq!(t.to_bytes(), vec![2]);
}

#[test]
fn record_round_trip() {
    for tag in [Tag::List, Tag::Table] {
        let r = Record::from_data(tag, vec![0, 1, 2, 255]);
        assert_eq!(Record::from_bytes(&r.to_bytes()), Some(r));
    }
}

#[test]
fn record_from_bad_bytes() {
    assert_eq!(Record::from_bytes(&[]), None);
    assert_eq!(Record::from_bytes(&[0, 1]), None);
    assert_eq!(Record::from_bytes(&[3]), None);
}

#[test]
fn record_expect_kind() {
    let r = Record::from_data(Tag::List, vec![5]);
    assert_eq!(r.expect(Tag::List), Ok(&[5u8][..]));
    assert_eq!(
        r.expect(Tag::Table),
        Err(ListError::BadType { expected: Tag::Table, actual: Tag::List })
    );
}

#[test]
fn tag_bytes() {
    assert_eq!(Tag::List.to_byte(), 1);
    assert_eq!(Tag::Table.to_byte(), 2);
    assert_eq!(Tag::from_byte(1), Some(Tag::List));
    assert_eq!(Tag::from_byte(2), Some(Tag::Table));
    assert_eq!(Tag::from_byte(0), None);
}
