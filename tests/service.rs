use mqtt_meta::cluster::BrokerNode;
use mqtt_meta::http_response::Response;
use mqtt_meta::records::{RecordRequest, RetainRequest, Topic};
use mqtt_meta::service::{apply_storage_data, GrpcMqttService, StorageData, StorageDataType};
use mqtt_meta::share_sub::ShareSubError;
use mqtt_meta::store::{MetadataStore, RecordKind, StoreError};

fn node(cluster: &str, id: u64) -> BrokerNode {
    BrokerNode {
        cluster_name: cluster.as_bytes().to_vec(),
        node_id: id,
        node_inner_addr: format!("10.0.0.{}:9981", id).into_bytes(),
        extend: format!("ext-{}", id).into_bytes(),
    }
}

#[test]
fn create_user_then_list() {
    let mut service = GrpcMqttService::new(vec![], MetadataStore::new());
    let req = RecordRequest {
        cluster_name: b"c".to_vec(),
        name: b"alice".to_vec(),
        content: b"alice-record".to_vec(),
    };
    let data = service.create_user(&req);
    assert!(data.data_type == StorageDataType::MQTTCreateUser);
    apply_storage_data(service.store_mut(), &data, 10).unwrap();
    let listed = service.list_user(b"c", b"alice").unwrap();
    assert_eq!(listed, vec![b"alice-record".to_vec()]);
    assert!(service.list_user(b"c", b"bob").unwrap().is_empty());

    let del = service.delete_user(&req);
    apply_storage_data(service.store_mut(), &del, 11).unwrap();
    assert!(service.list_user(b"c", b"alice").unwrap().is_empty());
}

#[test]
fn topic_and_session_proposals_apply() {
    let mut service = GrpcMqttService::new(vec![], MetadataStore::new());
    let t = RecordRequest { cluster_name: b"c".to_vec(), name: b"t".to_vec(), content: b"tp".to_vec() };
    let s = RecordRequest { cluster_name: b"c".to_vec(), name: b"s".to_vec(), content: b"ss".to_vec() };
    let ct = service.create_topic(&t);
    let cs = service.create_session(&s);
    apply_storage_data(service.store_mut(), &ct, 1).unwrap();
    apply_storage_data(service.store_mut(), &cs, 1).unwrap();
    assert_eq!(service.list_topic(b"c", b"t").unwrap(), vec![b"tp".to_vec()]);
    assert_eq!(service.list_session(b"c", b"s").unwrap(), vec![b"ss".to_vec()]);
    let dt = service.delete_topic(&t);
    let ds = service.delete_session(&s);
    apply_storage_data(service.store_mut(), &dt, 2).unwrap();
    apply_storage_data(service.store_mut(), &ds, 2).unwrap();
    assert!(service.list_topic(b"c", b"t").unwrap().is_empty());
    assert!(service.list_session(b"c", b"s").unwrap().is_empty());
}

#[test]
fn apply_errors() {
    let mut store = MetadataStore::new();
    let bad = StorageData::new(StorageDataType::MQTTCreateUser, vec![1, 2]);
    assert_eq!(apply_storage_data(&mut store, &bad, 1), Err(StoreError::Decode));
    let retain = RetainRequest {
        cluster_name: b"c".to_vec(),
        topic_name: b"t".to_vec(),
        retain_message: b"m".to_vec(),
        expired_at: 3,
    };
    let d = StorageData::new(StorageDataType::MQTTSetTopicRetainMessage, retain.encode());
    assert_eq!(apply_storage_data(&mut store, &d, 1), Err(StoreError::NotFound));
    let topic = Topic {
        topic_id: b"i".to_vec(),
        topic_name: b"t".to_vec(),
        retain_message: None,
        retain_message_expired_at: None,
    };
    store.save(RecordKind::Topic, b"c", b"t", topic.encode(), 1);
    assert_eq!(apply_storage_data(&mut store, &d, 5), Ok(()));
    let env = store.get(RecordKind::Topic, b"c", b"t").unwrap().unwrap();
    let t = Topic::decode(&env.data).unwrap();
    assert_eq!(t.retain_message, Some(b"m".to_vec()));
    assert_eq!(t.retain_message_expired_at, Some(3));
    assert_eq!(env.create_time, 5);
}

#[test]
fn share_sub_leader_reply_joins_node() {
    let nodes = vec![node("c", 7), node("c", 3), node("d", 5), node("c", 11)];
    let service = GrpcMqttService::new(nodes, MetadataStore::new());
    let rep = service.get_share_sub_leader(b"c", b"g1").ok().unwrap();
    assert_eq!(rep.broker_id, 11);
    assert_eq!(rep.broker_addr, b"10.0.0.11:9981".to_vec());
    assert_eq!(rep.extend_info, b"ext-11".to_vec());
    let rep = service.get_share_sub_leader(b"d", b"g1").ok().unwrap();
    assert_eq!(rep.broker_id, 5);
    assert!(matches!(service.get_share_sub_leader(b"e", b"g1"), Err(ShareSubError::NoBrokerAvailable)));
}

#[test]
fn response_codes() {
    let ok = Response::success(5u32);
    assert_eq!((ok.code, ok.data), (0, 5));
    let err = Response::error("boom".to_string());
    assert_eq!((err.code, err.data), (100, "boom".to_string()));
}
