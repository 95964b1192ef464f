use mqtt_meta::expire::{is_last_will_expired, is_retain_expired, MessageExpire};
use mqtt_meta::records::{Envelope, LastWill, Session, Topic};
use mqtt_meta::store::{MetadataStore, RecordKind};

fn topic(name: &str) -> Topic {
    Topic {
        topic_id: b"id-1".to_vec(),
        topic_name: name.as_bytes().to_vec(),
        retain_message: None,
        retain_message_expired_at: None,
    }
}

fn read_topic(store: &MetadataStore, cluster: &[u8], name: &[u8]) -> Topic {
    let res = store.list(RecordKind::Topic, cluster, Some(name)).unwrap();
    let data = res.get(0).unwrap();
    Topic::decode(&data.data).unwrap()
}

#[test]
fn retain_message_expire_test() {
    let cluster_name = b"cluster-retain".to_vec();
    let mut store = MetadataStore::new();
    let message_expire = MessageExpire::new(cluster_name.clone());
    let tp = topic("tp1");
    let start: u64 = 100;
    store.save(RecordKind::Topic, &cluster_name, &tp.topic_name, tp.encode(), start);
    store
        .set_topic_retain_message(&cluster_name, &tp.topic_name, b"retained".to_vec(), 3, start)
        .unwrap();

    let mut now = start;
    loop {
        message_expire.retain_message_expire(&mut store, now);
        let t = read_topic(&store, &cluster_name, &tp.topic_name);
        if t.retain_message.is_none() {
            assert!(t.retain_message_expired_at.is_none());
            break;
        }
        now += 1;
        assert!(now < start + 10);
    }
    assert_eq!(now - start, 3);
}

#[test]
fn last_will_message_expire_test() {
    let cluster_name = b"cluster-will".to_vec();
    let client_id = b"c1".to_vec();
    let mut store = MetadataStore::new();
    let message_expire = MessageExpire::new(cluster_name.clone());
    let last_will_message = LastWill {
        client_id: client_id.clone(),
        last_will: None,
        delay_interval: None,
        message_expiry_interval: Some(3),
    };
    let session = Session {
        client_id: client_id.clone(),
        broker_id: 1,
        session_expiry: 60,
        last_will_delay_interval: None,
    };
    let start: u64 = 100;
    store.save(RecordKind::Session, &cluster_name, &client_id, session.encode(), start);
    store.save(RecordKind::LastWill, &cluster_name, &client_id, last_will_message.encode(), start);

    let mut now = start;
    loop {
        message_expire.last_will_message_expire(&mut store, now);
        let res = store.get(RecordKind::LastWill, &cluster_name, &client_id).unwrap();
        if res.is_none() {
            break;
        }
        now += 1;
        assert!(now < start + 10);
    }
    assert_eq!(now - start, 3);
    // the session stays
    assert!(store.get(RecordKind::Session, &cluster_name, &client_id).unwrap().is_some());
}

#[test]
fn retain_expires_exactly_at_bound() {
    assert!(is_retain_expired(100, 3, 103));
    assert!(!is_retain_expired(100, 3, 102));
    assert!(!is_retain_expired(u64::MAX, 1, u64::MAX));
}

#[test]
fn last_will_default_lifetime_is_thirty_days() {
    let w = LastWill {
        client_id: b"c".to_vec(),
        last_will: None,
        delay_interval: None,
        message_expiry_interval: None,
    };
    assert!(is_last_will_expired(100, &w, 100 + 2_592_000));
    assert!(!is_last_will_expired(100, &w, 100 + 2_592_000 - 1));
    let w3 = LastWill { message_expiry_interval: Some(3), ..w };
    assert!(is_last_will_expired(100, &w3, 103));
    assert!(!is_last_will_expired(100, &w3, 102));
}

#[test]
fn last_will_without_interval_swept_after_thirty_days() {
    let cluster = b"c".to_vec();
    let mut store = MetadataStore::new();
    let w = LastWill {
        client_id: b"c9".to_vec(),
        last_will: Some(b"bye".to_vec()),
        delay_interval: Some(5),
        message_expiry_interval: None,
    };
    store.save(RecordKind::LastWill, &cluster, b"c9", w.encode(), 1000);
    let sweeper = MessageExpire::new(cluster.clone());
    sweeper.last_will_message_expire(&mut store, 1000 + 2_592_000 - 1);
    assert!(store.get(RecordKind::LastWill, &cluster, b"c9").unwrap().is_some());
    sweeper.last_will_message_expire(&mut store, 1000 + 2_592_000);
    assert!(store.get(RecordKind::LastWill, &cluster, b"c9").unwrap().is_none());
}

#[test]
fn sweep_of_empty_cluster_changes_nothing() {
    let mut store = MetadataStore::new();
    let other = topic("t");
    store.save(RecordKind::Topic, b"other", b"t", other.encode(), 5);
    let sweeper = MessageExpire::new(b"empty".to_vec());
    sweeper.retain_message_expire(&mut store, 1_000_000);
    sweeper.last_will_message_expire(&mut store, 1_000_000);
    let env = store.get(RecordKind::Topic, b"other", b"t").unwrap().unwrap();
    assert_eq!(env.create_time, 5);
    assert_eq!(env.data, other.encode());
}

#[test]
fn retain_sweep_skips_malformed_and_keeps_unexpired() {
    let cluster = b"c".to_vec();
    let mut store = MetadataStore::new();
    store.save(RecordKind::Topic, &cluster, b"bad", vec![1, 2, 3], 0);
    let mut t = topic("good");
    t.retain_message = Some(b"m".to_vec());
    t.retain_message_expired_at = Some(50);
    store.save(RecordKind::Topic, &cluster, b"good", t.encode(), 10);
    let sweeper = MessageExpire::new(cluster.clone());
    sweeper.retain_message_expire(&mut store, 59);
    assert_eq!(read_topic(&store, &cluster, b"good").retain_message, Some(b"m".to_vec()));
    sweeper.retain_message_expire(&mut store, 60);
    assert_eq!(read_topic(&store, &cluster, b"good").retain_message, None);
    // the save refreshes the envelope's create time
    let env: Envelope = store.get(RecordKind::Topic, &cluster, b"good").unwrap().unwrap();
    assert_eq!(env.create_time, 60);
    // the malformed payload is left as it was
    let bad = store.get(RecordKind::Topic, &cluster, b"bad").unwrap().unwrap();
    assert_eq!(bad.data, vec![1, 2, 3]);
}
