use mqtt_meta::broker_storage::{MessageStorage, TopicStorage};
use mqtt_meta::kv::KvStore;
use mqtt_meta::records::{LastWill, Topic};
use mqtt_meta::store::StoreError;

fn topic(name: &str) -> Topic {
    Topic {
        topic_id: format!("id-{}", name).into_bytes(),
        topic_name: name.as_bytes().to_vec(),
        retain_message: None,
        retain_message_expired_at: None,
    }
}

#[test]
fn retain_message_save_and_get() {
    let mut storage = MessageStorage::new(KvStore::new());
    assert_eq!(storage.get_retain_message(b"t1"), None);
    storage.save_retain_message(b"t1", b"m1".to_vec());
    storage.save_retain_message(b"t1", b"m2".to_vec());
    assert_eq!(storage.get_retain_message(b"t1"), Some(b"m2".to_vec()));
    assert_eq!(storage.get_retain_message(b"t2"), None);
}

#[test]
fn lastwill_save_and_get() {
    let mut storage = MessageStorage::new(KvStore::new());
    assert!(storage.get_lastwill(b"c1").unwrap().is_none());
    let w = LastWill {
        client_id: b"c1".to_vec(),
        last_will: Some(b"bye".to_vec()),
        delay_interval: None,
        message_expiry_interval: Some(10),
    };
    storage.save_lastwill(b"c1", &w);
    let got = storage.get_lastwill(b"c1").unwrap().unwrap();
    assert_eq!(got.last_will, Some(b"bye".to_vec()));
    assert_eq!(got.message_expiry_interval, Some(10));
}

#[test]
fn malformed_lastwill_is_an_error() {
    let mut kv = KvStore::new();
    kv.put(b"lastwill/c1".to_vec(), vec![7]);
    let storage = MessageStorage::new(kv);
    assert!(matches!(storage.get_lastwill(b"c1"), Err(StoreError::Decode)));
}

#[test]
fn topics_save_get_and_list() {
    let mut storage = TopicStorage::new(KvStore::new());
    storage.save_topic(b"b", &topic("b"));
    storage.save_topic(b"a", &topic("a"));
    assert_eq!(storage.get_topic(b"a").unwrap().unwrap().topic_id, b"id-a".to_vec());
    assert!(storage.get_topic(b"z").unwrap().is_none());
    let names: Vec<Vec<u8>> = storage.topic_list().unwrap().into_iter().map(|t| t.topic_name).collect();
    assert_eq!(names, vec![b"a".to_vec(), b"b".to_vec()]);
}

#[test]
fn topic_list_fails_on_malformed_topic() {
    let mut kv = KvStore::new();
    kv.put(b"topic/x".to_vec(), vec![1]);
    kv.put(b"other/y".to_vec(), vec![1]);
    let storage = TopicStorage::new(kv);
    assert!(matches!(storage.topic_list(), Err(StoreError::Decode)));
    assert!(matches!(storage.get_topic(b"x"), Err(StoreError::Decode)));
}
