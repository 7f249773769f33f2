use rust_redis::cmd::{Command, Del, Get, Publish, SetCmd, Subscribe, UnSubscribe};
use rust_redis::connection::{Connection, STREAM_MAX_BYTES};
use rust_redis::db::DataBase;
use rust_redis::error::FrameError;
use rust_redis::frame::Frame;
use rust_redis::server::{handle_command, Reply};

#[test]
fn server_test() {
    let mut db = DataBase::new();
    let reply = handle_command(&mut db, Command::Get(Get::new("k")).parse_to_frame());
    assert!(matches!(reply, Reply::Write(Frame::ErrorResult(ref s)) if s == "Result NULL!"));
}

#[test]
fn get_after_set_through_the_server() {
    let mut db = DataBase::new();
    let reply = handle_command(&mut db, Command::SetCmd(SetCmd::new("k", vec![1, 2])).parse_to_frame());
    assert!(matches!(reply, Reply::Write(Frame::Simple(ref s)) if s == "OK"));
    let reply = handle_command(&mut db, Command::Get(Get::new("k")).parse_to_frame());
    assert!(matches!(reply, Reply::Write(Frame::Bulk(ref b)) if b == &vec![1, 2]));
}

#[test]
fn non_commands_abort() {
    let mut db = DataBase::new();
    assert!(matches!(handle_command(&mut db, Frame::Null), Reply::Abort));
    assert!(matches!(handle_command(&mut db, Frame::Array(vec![])), Reply::Abort));
    let missing_key = Frame::Array(vec![Frame::Simple("GET".to_string())]);
    assert!(matches!(handle_command(&mut db, missing_key), Reply::Abort));
}

#[test]
fn unknown_command_does_nothing() {
    let mut db = DataBase::new();
    let frame = Frame::Array(vec![Frame::Simple("PING".to_string())]);
    assert!(matches!(handle_command(&mut db, frame), Reply::Nothing));
}

#[test]
fn subscribe_unsubscribe_publish() {
    let mut db = DataBase::new();
    let sub = Command::Subscribe(Subscribe::from_vec(vec!["a".to_string(), "b".to_string()]));
    let receivers = match handle_command(&mut db, sub.parse_to_frame()) {
        Reply::Listen(list) => list,
        _ => panic!("not a subscription"),
    };
    assert_eq!(receivers.len(), 2);
    assert_eq!(receivers[0].0, "a");
    assert_eq!(receivers[1].0, "b");
    let mut receivers: Vec<(String, _)> =
        receivers.into_iter().map(|(name, r)| (name, r.into_inner())).collect();
    let publish = Frame::Array(vec![
        Frame::Simple("PUBLISH".to_string()),
        Frame::Simple("a".to_string()),
        Frame::Bulk(vec![7]),
    ]);
    assert!(matches!(handle_command(&mut db, publish), Reply::Nothing));
    assert_eq!(receivers[0].1.try_recv().unwrap(), vec![7]);
    let unsub = Frame::Array(vec![
        Frame::Simple("UNSUBSCRIBE".to_string()),
        Frame::Array(vec![Frame::Simple("b".to_string())]),
    ]);
    match handle_command(&mut db, unsub) {
        Reply::Forget(names) => assert_eq!(names, vec!["b".to_string()]),
        _ => panic!("not an unsubscription"),
    }
    let _ = UnSubscribe { channels: vec![] };
}

#[test]
fn publish_to_unknown_channel_aborts() {
    let mut db = DataBase::new();
    let publish = Frame::Array(vec![
        Frame::Simple("PUBLISH".to_string()),
        Frame::Simple("nobody".to_string()),
        Frame::Bulk(vec![1]),
    ]);
    assert!(matches!(handle_command(&mut db, publish), Reply::Abort));
    let _ = Publish { key: String::new(), value: vec![] };
}

#[test]
fn connection_takes_whole_frames_only() {
    let mut conn = Connection::new();
    let bytes = Frame::parse_frame_to_bytes(Command::Get(Get::new("key")).parse_to_frame()).unwrap();
    conn.receive(&bytes[..5]);
    assert!(!conn.try_parse_frame_aborts());
    assert!(conn.try_parse_frame().is_err());
    assert_eq!(conn.buffer(), &bytes[..5]);
    conn.receive(&bytes[5..]);
    conn.receive(b"+next\r\n");
    match conn.try_parse_frame().unwrap() {
        Frame::Array(items) => assert_eq!(items.len(), 2),
        _ => panic!("not an array"),
    }
    assert_eq!(conn.buffer(), b"+next\r\n");
    assert!(matches!(conn.try_parse_frame().unwrap(), Frame::Simple(ref s) if s == "next"));
    assert!(conn.buffer().is_empty());
    assert!(STREAM_MAX_BYTES > 0);
}

#[test]
fn connection_drops_bytes_of_a_failed_parse() {
    let mut conn = Connection::new();
    conn.receive(&[b'+', 0xff, 13, 10, b'_']);
    assert!(!conn.try_parse_frame_aborts());
    assert!(matches!(conn.try_parse_frame(), Err(FrameError::InvalidUtf8)));
    assert_eq!(conn.buffer(), &[b'_']);
}

#[test]
fn connection_guard_sees_panicking_input() {
    let mut conn = Connection::new();
    conn.receive(b"_");
    assert!(conn.try_parse_frame_aborts());
    let mut conn = Connection::new();
    conn.receive(&Frame::parse_frame_to_bytes(Frame::Integer(1)).unwrap());
    assert!(conn.try_parse_frame_aborts());
}

#[test]
fn del_removes_the_key() {
    let mut db = DataBase::new();
    handle_command(&mut db, Command::SetCmd(SetCmd::new("k", vec![1])).parse_to_frame());
    handle_command(&mut db, Command::SetCmd(SetCmd::new("other", vec![2])).parse_to_frame());
    let reply = handle_command(&mut db, Command::Del(Del::new("k")).parse_to_frame());
    assert!(matches!(reply, Reply::Write(Frame::Simple(ref s)) if s == "OK"));
    let reply = handle_command(&mut db, Command::Get(Get::new("k")).parse_to_frame());
    assert!(matches!(reply, Reply::Write(Frame::ErrorResult(ref s)) if s == "Result NULL!"));
    assert_eq!(db.get(&"other".to_string()), Some(vec![2]));
    let reply = handle_command(&mut db, Command::Del(Del::new("missing")).parse_to_frame());
    assert!(matches!(reply, Reply::Write(Frame::Simple(ref s)) if s == "OK"));
}

#[test]
fn every_cut_of_a_command_waits_for_more() {
    let bytes = Frame::parse_frame_to_bytes(Command::SetCmd(SetCmd::new("key", vec![1, 2, 3])).parse_to_frame()).unwrap();
    for n in 0..bytes.len() {
        let mut conn = Connection::new();
        conn.receive(&bytes[..n]);
        assert!(!conn.try_parse_frame_aborts());
        assert!(conn.try_parse_frame().is_err());
        assert_eq!(conn.buffer(), &bytes[..n]);
    }
}

#[test]
fn value_persists_across_other_keys() {
    let mut db = DataBase::new();
    db.set("k".to_string(), vec![5]);
    db.set("a".to_string(), vec![1]);
    db.delete(&"b".to_string());
    let _r = db.subscribe(&"k".to_string());
    let _ = db.publish(&"k".to_string(), vec![9]);
    db.delete(&"a".to_string());
    assert_eq!(db.get(&"k".to_string()), Some(vec![5]));
}
