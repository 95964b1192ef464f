use mqtt_meta::kv::KvStore;
use mqtt_meta::records::{
    Connector, Envelope, ExpireLastWill, LastWill, RecordRequest, RetainRequest, Session, Topic,
    User,
};
use mqtt_meta::store::{record_key, record_prefix, MetadataStore, RecordKind, StoreError};

#[test]
fn record_keys_follow_layout() {
    assert_eq!(record_key(RecordKind::User, b"c1", b"alice"), b"mqtt/c1/user/alice".to_vec());
    assert_eq!(record_key(RecordKind::Topic, b"c1", b"t"), b"mqtt/c1/topic/t".to_vec());
    assert_eq!(record_key(RecordKind::Session, b"c1", b"s"), b"mqtt/c1/session/s".to_vec());
    assert_eq!(record_key(RecordKind::LastWill, b"c1", b"w"), b"mqtt/c1/lastwill/w".to_vec());
    assert_eq!(record_key(RecordKind::Connector, b"c1", b"k"), b"mqtt/c1/connector/k".to_vec());
    assert_eq!(record_prefix(RecordKind::Topic, b"c1"), b"mqtt/c1/topic/".to_vec());
}

#[test]
fn records_round_trip() {
    let t = Topic {
        topic_id: b"id".to_vec(),
        topic_name: b"a/b".to_vec(),
        retain_message: Some(b"hello".to_vec()),
        retain_message_expired_at: Some(30),
    };
    let d = Topic::decode(&t.encode()).unwrap();
    assert_eq!(d.topic_id, t.topic_id);
    assert_eq!(d.topic_name, t.topic_name);
    assert_eq!(d.retain_message, t.retain_message);
    assert_eq!(d.retain_message_expired_at, t.retain_message_expired_at);

    let u = User { username: b"alice".to_vec(), password: b"pw".to_vec(), is_superuser: true };
    let du = User::decode(&u.encode()).unwrap();
    assert_eq!((du.username, du.password, du.is_superuser), (u.username, u.password, true));

    let s = Session {
        client_id: b"c".to_vec(),
        broker_id: 7,
        session_expiry: u64::MAX,
        last_will_delay_interval: Some(0),
    };
    let ds = Session::decode(&s.encode()).unwrap();
    assert_eq!((ds.broker_id, ds.session_expiry, ds.last_will_delay_interval), (7, u64::MAX, Some(0)));

    let w = LastWill {
        client_id: b"c".to_vec(),
        last_will: Some(vec![0, 255]),
        delay_interval: Some(u32::MAX),
        message_expiry_interval: None,
    };
    let dw = LastWill::decode(&w.encode()).unwrap();
    assert_eq!(dw.last_will, Some(vec![0, 255]));
    assert_eq!(dw.delay_interval, Some(u32::MAX));
    assert_eq!(dw.message_expiry_interval, None);

    let c = Connector {
        connector_name: b"k".to_vec(),
        connector_type: b"kafka".to_vec(),
        config: b"{}".to_vec(),
    };
    let dc = Connector::decode(&c.encode()).unwrap();
    assert_eq!((dc.connector_name, dc.connector_type, dc.config), (c.connector_name, c.connector_type, c.config));

    let e = Envelope { create_time: 42, data: vec![] };
    let de = Envelope::decode(&e.encode()).unwrap();
    assert_eq!((de.create_time, de.data), (42, vec![]));

    let x = ExpireLastWill { cluster_name: b"c".to_vec(), client_id: b"i".to_vec(), delay_sec: 9 };
    let dx = ExpireLastWill::decode(&x.encode()).unwrap();
    assert_eq!(dx.delay_sec, 9);

    let q = RecordRequest { cluster_name: b"c".to_vec(), name: b"n".to_vec(), content: b"p".to_vec() };
    let dq = RecordRequest::decode(&q.encode()).unwrap();
    assert_eq!((dq.cluster_name, dq.name, dq.content), (q.cluster_name, q.name, q.content));

    let rq = RetainRequest {
        cluster_name: b"c".to_vec(),
        topic_name: b"t".to_vec(),
        retain_message: b"m".to_vec(),
        expired_at: 3,
    };
    assert_eq!(RetainRequest::decode(&rq.encode()).unwrap().expired_at, 3);
}

#[test]
fn envelope_encoding_is_exact() {
    let e = Envelope { create_time: 258, data: vec![9] };
    assert_eq!(e.encode(), vec![0, 0, 0, 0, 0, 0, 1, 2, 0, 0, 0, 0, 0, 0, 0, 1, 9]);
}

#[test]
fn malformed_bytes_do_not_decode() {
    assert!(Envelope::decode(&[1, 2, 3]).is_none());
    let mut bytes = Envelope { create_time: 1, data: vec![1] }.encode();
    bytes.push(0);
    assert!(Envelope::decode(&bytes).is_none());
    assert!(User::decode(&[]).is_none());
    // a flag byte above 1
    let mut u = User { username: vec![], password: vec![], is_superuser: false }.encode();
    let last = u.len() - 1;
    u[last] = 2;
    assert!(User::decode(&u).is_none());
    // an expiry interval beyond u32
    let mut w = Vec::new();
    w.extend_from_slice(&[0, 0, 0, 0, 0, 0, 0, 0]);
    w.push(0);
    w.push(0);
    w.push(1);
    w.extend_from_slice(&(u32::MAX as u64 + 1).to_be_bytes());
    assert!(LastWill::decode(&w).is_none());
}

#[test]
fn second_save_wins() {
    let mut store = MetadataStore::new();
    store.save(RecordKind::User, b"c", b"k", b"v1".to_vec(), 1);
    store.save(RecordKind::User, b"c", b"k", b"v2".to_vec(), 2);
    let env = store.get(RecordKind::User, b"c", b"k").unwrap().unwrap();
    assert_eq!(env.data, b"v2".to_vec());
    assert_eq!(env.create_time, 2);
}

#[test]
fn delete_is_idempotent() {
    let mut store = MetadataStore::new();
    store.save(RecordKind::Session, b"c", b"k", b"v".to_vec(), 1);
    store.delete(RecordKind::Session, b"c", b"k");
    assert!(store.get(RecordKind::Session, b"c", b"k").unwrap().is_none());
    store.delete(RecordKind::Session, b"c", b"k");
    assert!(store.get(RecordKind::Session, b"c", b"k").unwrap().is_none());
}

#[test]
fn list_without_name_gives_prefix_in_key_order() {
    let mut store = MetadataStore::new();
    store.save(RecordKind::Topic, b"c", b"b", b"2".to_vec(), 1);
    store.save(RecordKind::Topic, b"c", b"a", b"1".to_vec(), 1);
    store.save(RecordKind::Topic, b"c", b"bad", vec![], 1);
    store.save(RecordKind::Topic, b"d", b"x", b"3".to_vec(), 1);
    let l = store.list(RecordKind::Topic, b"c", None).unwrap();
    let data: Vec<Vec<u8>> = l.into_iter().map(|e| e.data).collect();
    assert_eq!(data, vec![b"1".to_vec(), b"2".to_vec(), vec![]]);
    assert_eq!(store.list(RecordKind::Topic, b"c", Some(b"a")).unwrap().len(), 1);
    assert_eq!(store.list(RecordKind::Topic, b"c", Some(b"zz")).unwrap().len(), 0);
}

#[test]
fn list_skips_entries_that_do_not_decode_but_get_reports_them() {
    let mut kv_store = MetadataStore::new();
    kv_store.save(RecordKind::User, b"c", b"u", b"ok".to_vec(), 1);
    // an empty cluster has nothing to list
    assert_eq!(kv_store.list(RecordKind::User, b"none", None).unwrap().len(), 0);
    assert_eq!(kv_store.list(RecordKind::User, b"c", None).unwrap().len(), 1);
    let mut raw = KvStore::new();
    raw.put(b"mqtt/c/user/u".to_vec(), vec![1]);
    assert_eq!(raw.get(b"mqtt/c/user/u"), Some(vec![1]));
}

#[test]
fn get_of_malformed_envelope_is_decode_error() {
    let mut store = MetadataStore::new();
    store.save(RecordKind::Topic, b"c", b"t", b"x".to_vec(), 1);
    assert!(store.set_topic_retain_message(b"c", b"t", b"m".to_vec(), 3, 2) == Err(StoreError::Decode));
    assert!(store.set_topic_retain_message(b"c", b"none", b"m".to_vec(), 3, 2) == Err(StoreError::NotFound));
}

#[test]
fn prefix_isolation() {
    let mut store = MetadataStore::new();
    store.save(RecordKind::User, b"c", b"u1", b"user".to_vec(), 1);
    store.save(RecordKind::Topic, b"c", b"u1", b"topic".to_vec(), 1);
    let users = store.list(RecordKind::User, b"c", None).unwrap();
    assert_eq!(users.len(), 1);
    assert_eq!(users[0].data, b"user".to_vec());
    let topics = store.list(RecordKind::Topic, b"c", None).unwrap();
    assert_eq!(topics.len(), 1);
    assert_eq!(topics[0].data, b"topic".to_vec());
}

#[test]
fn scan_stops_at_prefix_boundary() {
    let mut kv = KvStore::new();
    kv.put(b"a/1".to_vec(), b"x".to_vec());
    kv.put(b"b/2".to_vec(), b"y".to_vec());
    kv.put(b"b/1".to_vec(), b"z".to_vec());
    kv.put(b"c/1".to_vec(), b"w".to_vec());
    kv.put(b"b".to_vec(), b"v".to_vec());
    let r = kv.scan_prefix(b"b/");
    assert_eq!(r, vec![(b"b/1".to_vec(), b"z".to_vec()), (b"b/2".to_vec(), b"y".to_vec())]);
    assert_eq!(kv.scan_prefix(b"d/"), vec![]);
    kv.delete(b"b/1");
    kv.delete(b"b/1");
    assert_eq!(kv.scan_prefix(b"b/").len(), 1);
    assert_eq!(kv.get(b"b/1"), None);
}
