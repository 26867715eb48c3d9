use protocore::prices::Insert;
use protocore::prices::Msg;
use protocore::prices::MsgType;
use protocore::prices::Query;
use protocore::prices::mean_in_range;

#[test]
fn make_insert_from_bytes() {
    let msg = Insert::from_bytes(&[0x49, 0x00, 0x00, 0x30, 0x39, 0x00, 0x00, 0x00, 0x65]);
    assert_eq!(
        msg,
        Insert {
            timestamp: 12345,
            price: 101
        }
    );
}

#[test]
fn make_query_from_bytes() {
    let msg = Query::from_bytes(&[0x51, 0x00, 0x00, 0x03, 0xe8, 0x00, 0x01, 0x86, 0xa0]);
    assert_eq!(
        msg,
        Query {
            mintime: 1000,
            maxtime: 100000
        }
    );
}

#[test]
fn main_make_insert_from_bytes() {
    let msg = Msg::try_from_bytes(&[0x49, 0x00, 0x00, 0x30, 0x39, 0x00, 0x00, 0x00, 0x65])
        .unwrap();
    assert_eq!(msg, Msg(MsgType::I, 12345, 101));
}

#[test]
fn main_make_query_from_bytes() {
    let msg = Msg::try_from_bytes(&[0x51, 0x00, 0x00, 0x03, 0xe8, 0x00, 0x01, 0x86, 0xa0])
        .unwrap();
    assert_eq!(msg, Msg(MsgType::Q, 1000, 100000));
}

#[test]
fn bad_msg() {
    let msg = Msg::try_from_bytes(&[0x00, 0x00, 0x00, 0x00, 0x00, 0x00, 0x00, 0x00, 0x00]);
    assert!(msg.is_err());
}

#[test]
fn negative_fields_read_back() {
    // 0xffffffff is -1 in two's complement.
    let msg = Insert::from_bytes(&[0x49, 0xff, 0xff, 0xff, 0xff, 0xff, 0xff, 0xff, 0x9c]);
    assert_eq!(msg, Insert { timestamp: -1, price: -100 });
}

#[test]
fn mean_of_matching_prices() {
    let db = vec![
        Insert { timestamp: 10, price: 5 },
        Insert { timestamp: 20, price: 10 },
        Insert { timestamp: 99, price: 1000 },
    ];
    assert_eq!(mean_in_range(&db, 0, 50), 7);
    assert_eq!(mean_in_range(&db, 0, 100), 338);
    assert_eq!(mean_in_range(&db, 15, 25), 10);
}

#[test]
fn mean_is_zero_without_matches() {
    let db = vec![Insert { timestamp: 10, price: 5 }];
    assert_eq!(mean_in_range(&db, 100, 200), 0);
    assert_eq!(mean_in_range(&Vec::new(), 0, 0), 0);
    // An inverted interval matches nothing.
    assert_eq!(mean_in_range(&db, 20, 0), 0);
}

#[test]
fn mean_truncates_towards_zero() {
    let db = vec![
        Insert { timestamp: 1, price: -5 },
        Insert { timestamp: 2, price: -10 },
    ];
    assert_eq!(mean_in_range(&db, 0, 10), -7);
}
