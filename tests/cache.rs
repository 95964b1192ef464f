use mqtt_meta::cache::{load_mqtt_cache, MqttCacheManager};
use mqtt_meta::cluster::{ClusterInfo, ClusterType};
use mqtt_meta::records::{Connector, ExpireLastWill, Topic, User};
use mqtt_meta::store::{MetadataStore, RecordKind};

fn topic(name: &str) -> Topic {
    Topic {
        topic_id: format!("id-{}", name).into_bytes(),
        topic_name: name.as_bytes().to_vec(),
        retain_message: None,
        retain_message_expired_at: None,
    }
}

fn user(name: &str) -> User {
    User { username: name.as_bytes().to_vec(), password: b"pw".to_vec(), is_superuser: false }
}

fn sorted(mut v: Vec<Vec<u8>>) -> Vec<Vec<u8>> {
    v.sort();
    v
}

#[test]
fn add_then_remove_topic() {
    let mut cache = MqttCacheManager::new();
    cache.add_topic(b"c", topic("t1"));
    cache.add_topic(b"c", topic("t2"));
    cache.add_topic(b"d", topic("t1"));
    assert_eq!(sorted(cache.topic_names(b"c")), vec![b"t1".to_vec(), b"t2".to_vec()]);
    cache.remove_topic(b"c", b"t1");
    assert_eq!(cache.topic_names(b"c"), vec![b"t2".to_vec()]);
    assert_eq!(cache.topic_names(b"d"), vec![b"t1".to_vec()]);
    cache.remove_topic(b"c", b"missing");
    cache.remove_topic(b"zz", b"t2");
    assert_eq!(cache.topic_names(b"c"), vec![b"t2".to_vec()]);
}

#[test]
fn remove_user_and_connector_touch_their_own_collections() {
    let mut cache = MqttCacheManager::new();
    cache.add_topic(b"c", topic("x"));
    cache.add_user(b"c", user("x"));
    cache.add_connector(
        b"c",
        &Connector { connector_name: b"x".to_vec(), connector_type: b"file".to_vec(), config: vec![] },
    );
    cache.remove_user(b"c", b"x");
    assert!(cache.user_names(b"c").is_empty());
    assert_eq!(cache.topic_names(b"c"), vec![b"x".to_vec()]);
    assert_eq!(cache.connector_names(b"c"), vec![b"x".to_vec()]);
    cache.remove_connector(b"c", b"x");
    assert!(cache.connector_names(b"c").is_empty());
    assert_eq!(cache.topic_names(b"c"), vec![b"x".to_vec()]);
}

#[test]
fn due_last_wills_only() {
    let mut cache = MqttCacheManager::new();
    for (id, delay) in [("a", 10u64), ("b", 20), ("c", 30)] {
        cache.add_expire_last_will(ExpireLastWill {
            cluster_name: b"c".to_vec(),
            client_id: id.as_bytes().to_vec(),
            delay_sec: delay,
        });
    }
    cache.add_expire_last_will(ExpireLastWill {
        cluster_name: b"other".to_vec(),
        client_id: b"z".to_vec(),
        delay_sec: 0,
    });
    let mut due: Vec<Vec<u8>> = cache.get_expire_last_wills(b"c", 20).into_iter().map(|w| w.client_id).collect();
    due.sort();
    assert_eq!(due, vec![b"a".to_vec(), b"b".to_vec()]);
    cache.remove_expire_last_will(b"c", b"a");
    let due: Vec<Vec<u8>> = cache.get_expire_last_wills(b"c", 20).into_iter().map(|w| w.client_id).collect();
    assert_eq!(due, vec![b"b".to_vec()]);
    assert!(cache.get_expire_last_wills(b"c", 9).is_empty());
}

#[test]
fn cache_warm_up() {
    let mut store = MetadataStore::new();
    let names = ["t1", "t2", "t3", "t4", "t5"];
    let users = ["u1", "u2", "u3", "u4", "u5"];
    for n in names {
        store.save(RecordKind::Topic, b"c", n.as_bytes(), topic(n).encode(), 1);
    }
    for n in users {
        store.save(RecordKind::User, b"c", n.as_bytes(), user(n).encode(), 1);
    }
    store.save(RecordKind::Topic, b"j", b"jt", topic("jt").encode(), 1);
    let clusters = vec![
        ClusterInfo { cluster_name: b"c".to_vec(), cluster_type: ClusterType::MqttBrokerServer },
        ClusterInfo { cluster_name: b"j".to_vec(), cluster_type: ClusterType::JournalServer },
    ];
    let mut cache = MqttCacheManager::new();
    load_mqtt_cache(&mut cache, &store, &clusters);
    let want_topics: Vec<Vec<u8>> = names.iter().map(|n| n.as_bytes().to_vec()).collect();
    let want_users: Vec<Vec<u8>> = users.iter().map(|n| n.as_bytes().to_vec()).collect();
    assert_eq!(sorted(cache.topic_names(b"c")), want_topics);
    assert_eq!(sorted(cache.user_names(b"c")), want_users);
    assert!(cache.topic_names(b"j").is_empty());
}
