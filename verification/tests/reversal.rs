use protocore::codec::Session;
use protocore::session::Client;

fn get_client(init: &str) -> Client<()> {
    Client {
        session: Session(b"1232".to_vec()),
        src: (),
        in_buf: Vec::from(init.as_bytes()),
        out_buf: Vec::new(),
        out_acked: 0,
    }
}

#[test]
fn one_msg() {
    let mut c = get_client("Hello\n");

    c.sync_buffers();

    assert_eq!(
        String::from_utf8(c.out_buf.clone()).unwrap(),
        "olleH\n".to_string()
    );
}

#[test]
fn two_msg() {
    let mut c = get_client("Hello\nWorld!\n");

    c.sync_buffers();

    assert_eq!(
        String::from_utf8(c.out_buf.clone()).unwrap(),
        "olleH\n!dlroW\n".to_string()
    );
}

#[test]
fn one_msg_then_two_msg() {
    let mut c = get_client("Hello\n");

    c.sync_buffers();

    assert_eq!(
        String::from_utf8(c.out_buf.clone()).unwrap(),
        "olleH\n".to_string()
    );

    let mut next = b"Another\nWorld!\n".to_vec();
    c.in_buf.append(&mut next);

    c.sync_buffers();

    assert_eq!(
        String::from_utf8(c.out_buf.clone()).unwrap(),
        "olleH\nrehtonA\n!dlroW\n".to_string()
    );
}

#[test]
fn with_incomplete() {
    let mut c = get_client("Hello\nI am not fin...");

    c.sync_buffers();

    assert_eq!(
        String::from_utf8(c.out_buf.clone()).unwrap(),
        "olleH\n".to_string()
    );

    let mut next = b"ished!\n".to_vec();
    c.in_buf.append(&mut next);

    c.sync_buffers();

    assert_eq!(
        String::from_utf8(c.out_buf.clone()).unwrap(),
        "olleH\n!dehsi...nif ton ma I\n".to_string()
    );
}

#[test]
fn absorb_empty_is_stable() {
    let mut c = get_client("");
    c.absorb(b"Hello\n");
    assert_eq!(c.out_buf, b"olleH\n".to_vec());

    c.absorb(b"");
    c.absorb(b"");
    c.absorb(b"");
    assert_eq!(c.out_buf, b"olleH\n".to_vec());
    assert_eq!(c.in_buf, b"Hello\n".to_vec());
}

#[test]
fn absorb_accumulates() {
    let mut c = get_client("");
    c.absorb(b"Hel");
    assert_eq!(c.out_buf, Vec::<u8>::new());
    c.absorb(b"lo\nWor");
    assert_eq!(c.out_buf, b"olleH\n".to_vec());
    c.absorb(b"ld!\n");
    assert_eq!(c.out_buf, b"olleH\n!dlroW\n".to_vec());
}

#[test]
fn emit_chunks_positions() {
    let mut c = get_client("");
    let mut line = vec![b'x'; 1000];
    line.push(b'\n');
    c.absorb(&line);
    assert_eq!(c.out_buf.len(), 1001);

    let chunks = c.emit_chunks(0);
    assert_eq!(chunks.len(), 2);
    assert_eq!(chunks[0].pos, 0);
    assert_eq!(chunks[0].data.len(), 768);
    assert_eq!(chunks[1].pos, 768);
    assert_eq!(chunks[1].data.len(), 233);
    let mut joined = chunks[0].data.clone();
    joined.extend_from_slice(&chunks[1].data);
    assert_eq!(joined, c.out_buf);

    let tail = c.emit_chunks(1000);
    assert_eq!(tail.len(), 1);
    assert_eq!(tail[0].pos, 1000);
    assert_eq!(tail[0].data, b"\n".to_vec());

    let none = c.emit_chunks(1001);
    assert_eq!(none.len(), 0);
}
