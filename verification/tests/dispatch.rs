use protocore::codec::Ack;
use protocore::codec::Data;
use protocore::codec::Message;
use protocore::codec::Session;
use protocore::dispatch::Dispatcher;
use protocore::dispatch::MsgQueueCommands;
use protocore::retry::RetryEffect;
use protocore::retry::RetryQueue;

fn sess(b: &[u8]) -> Session {
    Session(b.to_vec())
}

#[test]
fn scenario_connect_data() {
    let mut d: Dispatcher<u32> = Dispatcher::new();

    let out = d.handle_msg_in(9, Message::Connect(sess(b"1234")));
    assert_eq!(out.replies.len(), 1);
    assert_eq!(out.replies[0].0, 9);
    assert_eq!(out.replies[0].1.encode(), b"/ack/1234/0/".to_vec());
    assert!(out.commands.is_empty());

    let out = d.handle_msg_in(
        9,
        Message::Data(Data { session: sess(b"1234"), pos: 0, data: b"hello\n".to_vec() }),
    );
    assert_eq!(out.replies.len(), 1);
    assert_eq!(out.replies[0].1.encode(), b"/ack/1234/6/".to_vec());
    assert_eq!(out.commands.len(), 1);
    match &out.commands[0] {
        MsgQueueCommands::Add(expected_ack, dest, data) => {
            assert_eq!(*expected_ack, 6);
            assert_eq!(*dest, 9);
            assert_eq!(
                Message::Data(Data {
                    session: data.session.clone(),
                    pos: data.pos,
                    data: data.data.clone(),
                })
                .encode(),
                b"/data/1234/0/olleh\n/".to_vec()
            );
        }
        _ => panic!("expected a queued chunk"),
    }
}

#[test]
fn duplicate_connect_reconfirms() {
    let mut d: Dispatcher<u32> = Dispatcher::new();
    d.handle_msg_in(1, Message::Connect(sess(b"77")));
    let out = d.handle_msg_in(1, Message::Connect(sess(b"77")));
    assert_eq!(d.clients.len(), 1);
    assert_eq!(out.replies.len(), 1);
    assert_eq!(out.replies[0].1, Message::Ack(Ack { session: sess(b"77"), len: 0 }));
}

#[test]
fn duplicate_data_reacks_without_absorbing() {
    let mut d: Dispatcher<u32> = Dispatcher::new();
    d.handle_msg_in(1, Message::Connect(sess(b"5")));
    d.handle_msg_in(
        1,
        Message::Data(Data { session: sess(b"5"), pos: 0, data: b"hi\n".to_vec() }),
    );
    assert_eq!(d.clients[0].in_buf, b"hi\n".to_vec());

    // The same chunk again: already consumed, so nothing changes and the
    // current input length is re-announced.
    let out = d.handle_msg_in(
        1,
        Message::Data(Data { session: sess(b"5"), pos: 0, data: b"hi\n".to_vec() }),
    );
    assert_eq!(d.clients[0].in_buf, b"hi\n".to_vec());
    assert_eq!(d.clients[0].out_buf, b"ih\n".to_vec());
    assert_eq!(out.replies[0].1, Message::Ack(Ack { session: sess(b"5"), len: 3 }));
    assert!(out.commands.is_empty());
}

#[test]
fn data_for_unknown_session_closes() {
    let mut d: Dispatcher<u32> = Dispatcher::new();
    let out = d.handle_msg_in(
        4,
        Message::Data(Data { session: sess(b"nope"), pos: 0, data: b"x\n".to_vec() }),
    );
    assert_eq!(out.replies.len(), 1);
    assert_eq!(out.replies[0].1, Message::Close(sess(b"nope")));
    assert!(out.commands.is_empty());
}

#[test]
fn partial_ack_reoffers_tail_only() {
    let mut d: Dispatcher<u32> = Dispatcher::new();
    d.handle_msg_in(2, Message::Connect(sess(b"8")));
    d.handle_msg_in(
        2,
        Message::Data(Data { session: sess(b"8"), pos: 0, data: b"hello\n".to_vec() }),
    );

    // Strictly between acknowledged (0) and output length (6).
    let out = d.handle_msg_in(2, Message::Ack(Ack { session: sess(b"8"), len: 3 }));
    assert!(out.replies.is_empty());
    assert_eq!(out.commands.len(), 1);
    match &out.commands[0] {
        MsgQueueCommands::Add(expected_ack, _, data) => {
            assert_eq!(data.pos, 3);
            assert_eq!(data.data, b"eh\n".to_vec());
            assert_eq!(*expected_ack, 6);
        }
        _ => panic!("expected a re-offered chunk"),
    }
    assert_eq!(d.clients[0].out_acked, 0);
}

#[test]
fn exact_ack_advances_and_cancels() {
    let mut d: Dispatcher<u32> = Dispatcher::new();
    let mut rq = RetryQueue::new();

    d.handle_msg_in(2, Message::Connect(sess(b"8")));
    let out = d.handle_msg_in(
        2,
        Message::Data(Data { session: sess(b"8"), pos: 0, data: b"hello\n".to_vec() }),
    );
    let spawned = match rq.handle(into_only(out.commands)) {
        RetryEffect::Spawn(task, _, _) => task,
        _ => panic!("expected a spawn"),
    };
    assert_eq!(rq.pending.len(), 1);

    let out = d.handle_msg_in(2, Message::Ack(Ack { session: sess(b"8"), len: 6 }));
    assert_eq!(d.clients[0].out_acked, 6);
    assert!(out.replies.is_empty());
    let cancelled = match rq.handle(into_only(out.commands)) {
        RetryEffect::Cancel(ts) => ts,
        _ => panic!("expected a cancellation"),
    };
    // Exactly the matching retry task stops; no pending chunk remains,
    // so no resend can happen after the next tick.
    assert_eq!(cancelled, vec![spawned]);
    assert!(rq.pending.is_empty());
}

#[test]
fn stale_ack_is_ignored() {
    let mut d: Dispatcher<u32> = Dispatcher::new();
    d.handle_msg_in(2, Message::Connect(sess(b"8")));
    d.handle_msg_in(
        2,
        Message::Data(Data { session: sess(b"8"), pos: 0, data: b"hello\n".to_vec() }),
    );
    d.handle_msg_in(2, Message::Ack(Ack { session: sess(b"8"), len: 6 }));

    let out = d.handle_msg_in(2, Message::Ack(Ack { session: sess(b"8"), len: 4 }));
    assert!(out.replies.is_empty());
    assert!(out.commands.is_empty());
    assert_eq!(d.clients[0].out_acked, 6);
}

#[test]
fn overlong_ack_is_a_violation() {
    let mut d: Dispatcher<u32> = Dispatcher::new();
    d.handle_msg_in(2, Message::Connect(sess(b"8")));
    let out = d.handle_msg_in(2, Message::Ack(Ack { session: sess(b"8"), len: 99 }));
    assert_eq!(out.replies.len(), 1);
    assert_eq!(out.replies[0].1, Message::Close(sess(b"8")));
    // The violation is answered close, but the session stays.
    assert_eq!(d.clients.len(), 1);
}

#[test]
fn ack_for_unknown_session_closes() {
    let mut d: Dispatcher<u32> = Dispatcher::new();
    let out = d.handle_msg_in(3, Message::Ack(Ack { session: sess(b"ghost"), len: 0 }));
    assert_eq!(out.replies[0].1, Message::Close(sess(b"ghost")));
}

#[test]
fn close_unknown_session_still_replies() {
    let mut d: Dispatcher<u32> = Dispatcher::new();
    let out = d.handle_msg_in(6, Message::Close(sess(b"ghost")));
    assert_eq!(out.replies.len(), 1);
    assert_eq!(out.replies[0].0, 6);
    assert_eq!(out.replies[0].1, Message::Close(sess(b"ghost")));
    assert_eq!(out.commands.len(), 1);
    assert!(matches!(&out.commands[0], MsgQueueCommands::Closed(s) if *s == sess(b"ghost")));
}

#[test]
fn close_removes_session_and_cancels_chunks() {
    let mut d: Dispatcher<u32> = Dispatcher::new();
    let mut rq = RetryQueue::new();
    d.handle_msg_in(2, Message::Connect(sess(b"8")));
    let out = d.handle_msg_in(
        2,
        Message::Data(Data { session: sess(b"8"), pos: 0, data: b"hello\n".to_vec() }),
    );
    rq.handle(into_only(out.commands));
    assert_eq!(rq.pending.len(), 1);

    let out = d.handle_msg_in(2, Message::Close(sess(b"8")));
    assert!(d.clients.is_empty());
    let cancelled = match rq.handle(into_only(out.commands)) {
        RetryEffect::Cancel(ts) => ts,
        _ => panic!("expected a cancellation"),
    };
    assert_eq!(cancelled.len(), 1);
    assert!(rq.pending.is_empty());
}

fn into_only(mut commands: Vec<MsgQueueCommands<u32>>) -> MsgQueueCommands<u32> {
    assert_eq!(commands.len(), 1);
    commands.remove(0)
}
