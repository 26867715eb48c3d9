use protocore::codec::Ack;
use protocore::codec::Data;
use protocore::codec::Message;
use protocore::codec::Session;

#[test]
fn basic() {
    let m = Message::decode(b"/data/123/789/simple message/").unwrap();

    assert_eq!(
        m,
        Message::Data(Data {
            session: Session(b"123".to_vec()),
            pos: 789,
            data: b"simple message".to_vec(),
        })
    )
}

#[test]
fn escapes() {
    let m = Message::decode(b"/data/123/789/simple \\/ message/").unwrap();

    assert_eq!(
        m,
        Message::Data(Data {
            session: Session(b"123".to_vec()),
            pos: 789,
            data: b"simple / message".to_vec(),
        })
    )
}

#[test]
fn invalid() {
    let m = Message::decode(b"/data/123/789/not/valid/payload/");

    assert!(m.is_none());
}

#[test]
fn decode_connect_close_ack() {
    assert_eq!(
        Message::decode(b"/connect/1234/").unwrap(),
        Message::Connect(Session(b"1234".to_vec()))
    );
    assert_eq!(
        Message::decode(b"/close/1234/").unwrap(),
        Message::Close(Session(b"1234".to_vec()))
    );
    assert_eq!(
        Message::decode(b"/ack/1234/17/").unwrap(),
        Message::Ack(Ack { session: Session(b"1234".to_vec()), len: 17 })
    );
}

#[test]
fn decode_rejects_malformed() {
    assert!(Message::decode(b"").is_none());
    assert!(Message::decode(b"/").is_none());
    assert!(Message::decode(b"connect/1/").is_none());
    assert!(Message::decode(b"/connect/1").is_none());
    assert!(Message::decode(b"/shout/1/").is_none());
    assert!(Message::decode(b"/ack/1/x/").is_none());
    assert!(Message::decode(b"/ack/1//").is_none());
    assert!(Message::decode(b"/ack/1/99999999999999999999999/").is_none());
    assert!(Message::decode(b"/data/1/5/trailing\\/").is_none());
    assert!(Message::decode(b"/connect/a/b/").is_none());
    let mut big = Vec::new();
    big.push(b'/');
    big.extend_from_slice(b"connect/");
    big.extend_from_slice(&vec![b'x'; 992]);
    big.push(b'/');
    assert_eq!(big.len(), 1002);
    assert!(Message::decode(&big).is_none());
}

#[test]
fn decode_accepts_leading_zeroes() {
    assert_eq!(
        Message::decode(b"/ack/9/007/").unwrap(),
        Message::Ack(Ack { session: Session(b"9".to_vec()), len: 7 })
    );
}

#[test]
fn encode_forms() {
    let ack = Message::Ack(Ack { session: Session(b"1234".to_vec()), len: 0 });
    assert_eq!(ack.encode(), b"/ack/1234/0/".to_vec());

    let close = Message::Close(Session(b"7".to_vec()));
    assert_eq!(close.encode(), b"/close/7/".to_vec());

    let connect = Message::Connect(Session(b"9".to_vec()));
    assert_eq!(connect.encode(), b"/connect/9/".to_vec());

    let data = Message::Data(Data {
        session: Session(b"5".to_vec()),
        pos: 12,
        data: b"a/b\\c".to_vec(),
    });
    assert_eq!(data.encode(), b"/data/5/12/a\\/b\\\\c/".to_vec());
}

#[test]
fn encode_decode_round_trip() {
    let payloads: Vec<&[u8]> = vec![
        b"",
        b"plain",
        b"/",
        b"\\",
        b"\\/",
        b"/\\",
        b"a//b\\\\c\\/d",
        b"line\nwith\nbreaks",
    ];
    for p in payloads {
        let m = Message::Data(Data {
            session: Session(b"42".to_vec()),
            pos: 123456,
            data: p.to_vec(),
        });
        let wire = m.encode();
        let back = Message::decode(&wire).unwrap();
        let m2 = Message::Data(Data {
            session: Session(b"42".to_vec()),
            pos: 123456,
            data: p.to_vec(),
        });
        assert_eq!(back, m2);
    }
}
