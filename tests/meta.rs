use kv_list::error::{Error, ListError};
use kv_list::meta::{Meta, META_SIZE};
use kv_list::record::{Record, Tag};

#[test]
fn mk_key_positions() {
    let m = Meta { head: 100, len: 3 };
    assert_eq!(m.mk_key(0), Some(100));
    assert_eq!(m.mk_key(1), Some(101));
    assert_eq!(m.mk_key(2), Some(102));
    assert_eq!(m.mk_key(-1), Some(102));
    assert_eq!(m.mk_key(-2), Some(101));
    assert_eq!(m.mk_key(-3), Some(100));
    assert_eq!(m.mk_key(3), None);
    assert_eq!(m.mk_key(-4), None);
    assert_eq!(m.mk_key(i64::MAX), None);
    assert_eq!(m.mk_key(i64::MIN), None);
}

#[test]
fn mk_key_empty_list() {
    let m = Meta::default();
    assert_eq!(m.mk_key(0), None);
    assert_eq!(m.mk_key(-1), None);
    assert_eq!(m.mk_key(1), None);
}

#[test]
fn mk_key_near_limits() {
    let m = Meta { head: i64::MAX - 2, len: 3 };
    assert_eq!(m.mk_key(-1), Some(i64::MAX));
    assert_eq!(m.tail_ix(), Some(i64::MAX));
    let n = Meta { head: i64::MIN, len: u64::MAX };
    assert_eq!(n.mk_key(i64::MIN), Some(-1));
    assert_eq!(n.mk_key(-1), Some(i64::MAX - 1));
    assert_eq!(n.mk_key(i64::MAX), Some(-1));
}

#[test]
fn head_and_tail() {
    let m = Meta { head: -5, len: 4 };
    assert_eq!(m.head_ix(), Some(-5));
    assert_eq!(m.tail_ix(), Some(-2));
    assert_eq!(m.len(), 4);
    assert!(!m.is_empty());
    let e = Meta { head: 7, len: 0 };
    assert_eq!(e.head_ix(), None);
    assert_eq!(e.tail_ix(), None);
    assert!(e.is_empty());
}

#[test]
fn default_is_empty_at_zero() {
    let m = Meta::default();
    assert_eq!(m, Meta { head: 0, len: 0 });
}

#[test]
fn push_front_then_pop_front() {
    let orig = Meta { head: 10, len: 2 };
    let mut m = orig;
    let k = m.push_front();
    assert_eq!(k, 9);
    assert_eq!(m, Meta { head: 9, len: 3 });
    assert_eq!(m.pop_front(), Some(k));
    assert_eq!(m, orig);
}

#[test]
fn push_back_then_pop_back() {
    let orig = Meta { head: 10, len: 2 };
    let mut m = orig;
    let k = m.push_back();
    assert_eq!(k, 12);
    assert_eq!(m, Meta { head: 10, len: 3 });
    assert_eq!(m.pop_back(), Some(k));
    assert_eq!(m, orig);
}

#[test]
fn pops_on_empty_change_nothing() {
    let orig = Meta { head: -3, len: 0 };
    let mut m = orig;
    assert_eq!(m.pop_front(), None);
    assert_eq!(m, orig);
    assert_eq!(m.pop_back(), None);
    assert_eq!(m, orig);
}

#[test]
fn end_to_end_order() {
    let mut m = Meta::default();
    let a = m.push_back();
    let b = m.push_back();
    let c = m.push_front();
    assert_eq!(m, Meta { head: -1, len: 3 });
    assert_eq!(m.mk_key(0), Some(c));
    assert_eq!(m.mk_key(1), Some(a));
    assert_eq!(m.mk_key(2), Some(b));
    assert_eq!(m.mk_key(-1), Some(b));
    assert_eq!((a, b, c), (0, 1, -1));
}

#[test]
fn encode_layout() {
    let m = Meta { head: -1, len: 3 };
    let r = m.encode();
    assert_eq!(r.tag(), Tag::List);
    assert_eq!(r.len(), META_SIZE);
    assert_eq!(
        r.data(),
        vec![0x7f, 0xff, 0xff, 0xff, 0xff, 0xff, 0xff, 0xff, 0, 0, 0, 0, 0, 0, 0, 3]
    );
    let z = Meta::default().encode();
    assert_eq!(z.data(), vec![0x80, 0, 0, 0, 0, 0, 0, 0, 0, 0, 0, 0, 0, 0, 0, 0]);
}

#[test]
fn meta_round_trip() {
    let cases = [
        Meta { head: 0, len: 0 },
        Meta { head: -1, len: 3 },
        Meta { head: i64::MIN, len: u64::MAX },
        Meta { head: i64::MAX, len: 1 },
        Meta { head: 123456789, len: 0x0102030405060708 },
    ];
    for m in cases {
        assert_eq!(Meta::decode(&m.encode()), Ok(m));
    }
}

#[test]
fn decode_wrong_tag() {
    let good = Meta { head: 4, len: 2 }.encode();
    let r = Record::from_data(Tag::Table, good.data());
    assert_eq!(
        Meta::decode(&r),
        Err(ListError::BadType { expected: Tag::List, actual: Tag::Table })
    );
    let short = Record::from_data(Tag::Table, vec![1, 2]);
    assert_eq!(
        Meta::decode(&short),
        Err(ListError::BadType { expected: Tag::List, actual: Tag::Table })
    );
}

#[test]
fn decode_wrong_size() {
    for n in [0usize, 1, 8, 15, 17, 32] {
        let payload = vec![0xabu8; n];
        let r = Record::from_data(Tag::List, payload.clone());
        assert_eq!(Meta::decode(&r), Err(ListError::InvalidMeta { payload }));
    }
}

#[test]
fn decode_explicit_payload() {
    let r = Record::from_data(
        Tag::List,
        vec![0x80, 0, 0, 0, 0, 0, 0, 0x64, 0, 0, 0, 0, 0, 0, 0x01, 0x00],
    );
    assert_eq!(Meta::decode(&r), Ok(Meta { head: 100, len: 256 }));
}

#[test]
fn keys_representable_bounds() {
    assert!(Meta { head: i64::MAX, len: 1 }.keys_representable());
    assert!(!Meta { head: i64::MAX, len: 2 }.keys_representable());
    assert!(Meta { head: i64::MIN, len: u64::MAX }.keys_representable());
    assert!(Meta { head: i64::MIN + 1, len: u64::MAX }.keys_representable());
    assert!(!Meta { head: i64::MIN + 2, len: u64::MAX }.keys_representable());
}

#[test]
fn list_error_lifts_into_error() {
    let e: Error<String> = Error::from(ListError::InvalidMeta { payload: vec![1] });
    assert!(matches!(e, Error::List(ListError::InvalidMeta { .. })));
    let s: Error<String> = Error::Store("down".to_string());
    assert!(matches!(s, Error::Store(ref m) if m == "down"));
}
