use rust_redis::cmd::{Command, Del, Get, Publish, SetCmd, Subscribe, UnSubscribe};
use rust_redis::error::CommandError;
use rust_redis::event::Event;
use rust_redis::frame::Frame;

fn names(frame: &Frame) -> Vec<String> {
    match frame {
        Frame::Array(items) => items
            .iter()
            .map(|f| match f {
                Frame::Simple(s) => s.clone(),
                Frame::Bulk(b) => format!("bulk:{:?}", b),
                Frame::Array(_) => "array".to_string(),
                _ => "other".to_string(),
            })
            .collect(),
        _ => vec![],
    }
}

#[test]
fn get_and_set_constructors() {
    let g = Get::new("key");
    assert_eq!(g.key, "key");
    let s = SetCmd::new("k", vec![1, 2]);
    assert_eq!(s.key, "k");
    assert_eq!(s.value, vec![1, 2]);
    let sub = Subscribe::from_vec(vec!["c".to_string()]);
    assert_eq!(sub.channels, vec!["c".to_string()]);
}

#[test]
fn command_frames() {
    let f = Command::Get(Get::new("k")).parse_to_frame();
    assert_eq!(names(&f), vec!["GET", "k"]);
    let f = Command::SetCmd(SetCmd::new("k", vec![7])).parse_to_frame();
    assert_eq!(names(&f), vec!["SET".to_string(), "k".to_string(), "bulk:[7]".to_string()]);
    let f = Command::Subscribe(Subscribe::from_vec(vec!["a".to_string()])).parse_to_frame();
    assert_eq!(names(&f), vec!["SUBSCRIBE", "array"]);
    let f = Command::UnSubscribe(UnSubscribe { channels: vec!["a".to_string()] }).parse_to_frame();
    assert_eq!(names(&f), vec!["SUBSCRIBE", "array"]);
    let f = Command::Publish(Publish { key: "ch".to_string(), value: vec![1] }).parse_to_frame();
    assert_eq!(names(&f), vec!["SET".to_string(), "ch".to_string(), "bulk:[1]".to_string()]);
    assert!(matches!(Command::Unknown.parse_to_frame(), Frame::Null));
}

#[test]
fn commands_read_back_from_their_frames() {
    match Command::from_frame(Command::Get(Get::new("k")).parse_to_frame()).unwrap() {
        Command::Get(g) => assert_eq!(g.key, "k"),
        _ => panic!("not a get"),
    }
    match Command::from_frame(Command::SetCmd(SetCmd::new("k", vec![3])).parse_to_frame()).unwrap() {
        Command::SetCmd(s) => {
            assert_eq!(s.key, "k");
            assert_eq!(s.value, vec![3]);
        }
        _ => panic!("not a set"),
    }
    let sub = Command::Subscribe(Subscribe::from_vec(vec!["a".to_string(), "b".to_string()]));
    match Command::from_frame(sub.parse_to_frame()).unwrap() {
        Command::Subscribe(s) => assert_eq!(s.channels, vec!["a".to_string(), "b".to_string()]),
        _ => panic!("not a subscribe"),
    }
}

#[test]
fn unsubscribe_and_publish_travel_under_other_names() {
    let unsub = Command::UnSubscribe(UnSubscribe { channels: vec!["a".to_string()] });
    assert!(matches!(Command::from_frame(unsub.parse_to_frame()).unwrap(), Command::Subscribe(_)));
    let publish = Command::Publish(Publish { key: "ch".to_string(), value: vec![1] });
    assert!(matches!(Command::from_frame(publish.parse_to_frame()).unwrap(), Command::SetCmd(_)));
    assert!(matches!(
        Command::from_frame(Command::Unknown.parse_to_frame()),
        Err(CommandError::NotACommand)
    ));
}

#[test]
fn from_frame_reads_publish_and_unsubscribe_by_name() {
    let publish = Frame::Array(vec![
        Frame::Simple("PUBLISH".to_string()),
        Frame::Simple("ch".to_string()),
        Frame::Integer(1),
    ]);
    match Command::from_frame(publish).unwrap() {
        Command::Publish(p) => {
            assert_eq!(p.key, "ch");
            assert_eq!(p.value, vec![0, 0, 0, 0, 0, 0, 0, 1]);
        }
        _ => panic!("not a publish"),
    }
    let unsub = Frame::Array(vec![
        Frame::Simple("UNSUBSCRIBE".to_string()),
        Frame::Array(vec![Frame::Simple("x".to_string())]),
    ]);
    match Command::from_frame(unsub).unwrap() {
        Command::UnSubscribe(u) => assert_eq!(u.channels, vec!["x".to_string()]),
        _ => panic!("not an unsubscribe"),
    }
}

#[test]
fn from_frame_errors_and_unknown() {
    assert!(matches!(Command::from_frame(Frame::Null), Err(CommandError::NotACommand)));
    assert!(matches!(
        Command::from_frame(Frame::Array(vec![Frame::Integer(1)])),
        Err(CommandError::NoCommandName)
    ));
    assert!(matches!(
        Command::from_frame(Frame::Array(vec![Frame::Simple("PING".to_string())])).unwrap(),
        Command::Unknown
    ));
}

#[test]
fn self_to_frame_does_nothing() {
    Command::Unknown.self_to_frame();
}

#[test]
fn event_frames() {
    let f = Event::Delete("k".to_string()).parse_ro_frame();
    assert_eq!(names(&f), vec!["GET", "k"]);
    let f = Event::Change("k".to_string(), vec![5]).parse_ro_frame();
    assert_eq!(names(&f), vec!["SET".to_string(), "k".to_string(), "bulk:[5]".to_string()]);
}

#[test]
fn event_frames_match_command_frames() {
    let change = Frame::parse_frame_to_bytes(Event::Change("k".to_string(), vec![1]).parse_ro_frame()).unwrap();
    let set = Frame::parse_frame_to_bytes(Command::SetCmd(SetCmd::new("k", vec![1])).parse_to_frame()).unwrap();
    assert_eq!(change, set);
    let delete = Frame::parse_frame_to_bytes(Event::Delete("k".to_string()).parse_ro_frame()).unwrap();
    let get = Frame::parse_frame_to_bytes(Command::Get(Get::new("k")).parse_to_frame()).unwrap();
    assert_eq!(delete, get);
}

#[test]
fn del_command_frames_and_reads_back() {
    let d = Del::new("k");
    assert_eq!(d.key, "k");
    let f = Command::Del(Del::new("k")).parse_to_frame();
    assert_eq!(names(&f), vec!["DEL", "k"]);
    match Command::from_frame(f).unwrap() {
        Command::Del(d) => assert_eq!(d.key, "k"),
        _ => panic!("not a del"),
    }
    let frame = Frame::Array(vec![Frame::Simple("DEL".to_string()), Frame::Simple("x".to_string())]);
    assert!(matches!(Command::from_frame(frame).unwrap(), Command::Del(ref d) if d.key == "x"));
}
