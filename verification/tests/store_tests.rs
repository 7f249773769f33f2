use rust_redis::db::{publish_result, DataBase, Entry};
use rust_redis::error::PublishError;

#[test]
fn get_after_set_and_delete() {
    let mut db = DataBase::new();
    assert_eq!(db.get(&"k".to_string()), None);
    db.set("k".to_string(), vec![1]);
    db.set("other".to_string(), vec![2]);
    assert_eq!(db.get(&"k".to_string()), Some(vec![1]));
    db.set("k".to_string(), vec![3]);
    assert_eq!(db.get(&"k".to_string()), Some(vec![3]));
    assert_eq!(db.get(&"other".to_string()), Some(vec![2]));
    db.delete(&"k".to_string());
    assert_eq!(db.get(&"k".to_string()), None);
    assert_eq!(db.get(&"other".to_string()), Some(vec![2]));
    db.delete(&"missing".to_string());
    assert_eq!(db.get(&"other".to_string()), Some(vec![2]));
}

#[test]
fn default_store_is_empty() {
    let db = DataBase::default();
    assert_eq!(db.get(&"k".to_string()), None);
    let _ = Entry::default();
}

#[test]
fn publish_reaches_subscribers() {
    let mut db = DataBase::new();
    let mut first = db.subscribe(&"news".to_string()).into_inner();
    let mut second = db.subscribe(&"news".to_string()).into_inner();
    assert_eq!(db.publish(&"news".to_string(), vec![4, 2]), Ok(()));
    assert_eq!(first.try_recv().unwrap(), vec![4, 2]);
    assert_eq!(second.try_recv().unwrap(), vec![4, 2]);
}

#[test]
fn publish_without_subscriber() {
    let mut db = DataBase::new();
    assert_eq!(db.publish(&"ch".to_string(), vec![1]), Err(PublishError::NoSubscriber));
    assert_eq!(db.publish(&"ch".to_string(), vec![1]), Err(PublishError::NoReceiver));
    let mut r = db.subscribe(&"ch".to_string()).into_inner();
    assert_eq!(db.publish(&"ch".to_string(), vec![9]), Ok(()));
    assert_eq!(r.try_recv().unwrap(), vec![9]);
}

#[test]
fn publish_after_receivers_are_gone() {
    let mut db = DataBase::new();
    let r = db.subscribe(&"ch".to_string());
    drop(r);
    assert_eq!(db.publish(&"ch".to_string(), vec![1]), Err(PublishError::NoReceiver));
}

#[test]
fn publish_result_cases() {
    assert_eq!(publish_result(Ok(2)), Ok(()));
    assert_eq!(publish_result(Err(vec![1])), Err(PublishError::NoReceiver));
}

#[test]
fn data_and_channels_are_apart() {
    let mut db = DataBase::new();
    let _r = db.subscribe(&"k".to_string());
    assert_eq!(db.get(&"k".to_string()), None);
    db.set("k".to_string(), vec![1]);
    assert_eq!(db.publish(&"k".to_string(), vec![2]), Ok(()));
    assert_eq!(db.get(&"k".to_string()), Some(vec![1]));
}

#[test]
fn subscriber_is_owed_only_later_messages() {
    let mut db = DataBase::new();
    let mut early = db.subscribe(&"ch".to_string()).into_inner();
    assert_eq!(db.publish(&"ch".to_string(), vec![1]), Ok(()));
    let mut late = db.subscribe(&"ch".to_string()).into_inner();
    assert_eq!(db.publish(&"ch".to_string(), vec![2]), Ok(()));
    assert_eq!(early.try_recv().unwrap(), vec![1]);
    assert_eq!(early.try_recv().unwrap(), vec![2]);
    assert_eq!(late.try_recv().unwrap(), vec![2]);
    assert!(late.try_recv().is_err());
}

#[test]
fn publishing_elsewhere_reaches_no_other_subscriber() {
    let mut db = DataBase::new();
    let mut a = db.subscribe(&"a".to_string()).into_inner();
    let mut b = db.subscribe(&"b".to_string()).into_inner();
    assert_eq!(db.publish(&"b".to_string(), vec![5]), Ok(()));
    assert!(a.try_recv().is_err());
    assert_eq!(b.try_recv().unwrap(), vec![5]);
}

#[test]
fn read_follows_last_change_to_the_key() {
    let mut db = DataBase::new();
    db.set("k".to_string(), vec![1]);
    db.set("x".to_string(), vec![2]);
    db.delete(&"x".to_string());
    let _r = db.subscribe(&"k".to_string());
    assert_eq!(db.publish(&"k".to_string(), vec![9]), Ok(()));
    assert_eq!(db.get(&"k".to_string()), Some(vec![1]));
    db.delete(&"k".to_string());
    db.set("x".to_string(), vec![3]);
    assert_eq!(db.get(&"k".to_string()), None);
}

#[test]
fn subscriber_gets_its_channel_messages_in_order() {
    let mut db = DataBase::new();
    let mut a = db.subscribe(&"a".to_string()).into_inner();
    assert_eq!(db.publish(&"a".to_string(), vec![1]), Ok(()));
    assert_eq!(db.publish(&"b".to_string(), vec![2]), Err(PublishError::NoSubscriber));
    db.set("k".to_string(), vec![0]);
    let _other = db.subscribe(&"c".to_string());
    assert_eq!(db.publish(&"a".to_string(), vec![3]), Ok(()));
    assert_eq!(a.try_recv().unwrap(), vec![1]);
    assert_eq!(a.try_recv().unwrap(), vec![3]);
    assert!(a.try_recv().is_err());
}
