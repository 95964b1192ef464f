//! The placement service's MQTT operations: proposals for mutating requests,
//! the apply step that performs them on the store, listings and the
//! share-subscription leader query.
use vstd::prelude::*;
use crate::cluster::BrokerNode;
use crate::records::{
    parse_record_request, parse_retain_request, record_request_bytes, RecordRequest,
    RecordRequestModel, RetainRequest, RetainRequestModel,
};
use crate::share_sub::{calc_share_sub_leader, is_leader, ShareSubError};
use crate::store::{
    envelopes_view, key_of, list_one, list_view, lookup, read_result, retain_set, saved_bytes,
    MetadataStore, RecordKind, StoreError,
};
use crate::records::Envelope;

verus! {

/// Every mutating operation that goes through consensus.
#[derive(Clone, Copy, Debug, PartialEq, Eq, Structural)]
pub enum StorageDataType {
    MQTTCreateUser,
    MQTTDeleteUser,
    MQTTCreateTopic,
    MQTTDeleteTopic,
    MQTTCreateSession,
    MQTTDeleteSession,
    MQTTSetTopicRetainMessage,
    MQTTSaveLastWill,
    MQTTDeleteLastWill,
    MQTTSaveConnector,
    MQTTDeleteConnector,
}

/// One proposal: the operation and its encoded request.
pub struct StorageData {
    pub data_type: StorageDataType,
    pub value: Vec<u8>,
}

impl StorageData {
    pub fn new(data_type: StorageDataType, value: Vec<u8>) -> (r: StorageData)
        ensures
            r.data_type == data_type,
            r.value@ == value@,
    {
        StorageData { data_type, value }
    }
}

/// The record family and whether it is a save (true) or a delete, for the
/// operations that carry a [`RecordRequest`].
pub open spec fn operation(t: StorageDataType) -> Option<(RecordKind, bool)> {
    match t {
        StorageDataType::MQTTCreateUser => Some((RecordKind::User, true)),
        StorageDataType::MQTTDeleteUser => Some((RecordKind::User, false)),
        StorageDataType::MQTTCreateTopic => Some((RecordKind::Topic, true)),
        StorageDataType::MQTTDeleteTopic => Some((RecordKind::Topic, false)),
        StorageDataType::MQTTCreateSession => Some((RecordKind::Session, true)),
        StorageDataType::MQTTDeleteSession => Some((RecordKind::Session, false)),
        StorageDataType::MQTTSaveLastWill => Some((RecordKind::LastWill, true)),
        StorageDataType::MQTTDeleteLastWill => Some((RecordKind::LastWill, false)),
        StorageDataType::MQTTSaveConnector => Some((RecordKind::Connector, true)),
        StorageDataType::MQTTDeleteConnector => Some((RecordKind::Connector, false)),
        StorageDataType::MQTTSetTopicRetainMessage => None,
    }
}

/// What applying a committed proposal does to the store map, or the error it gives.
pub open spec fn applied(m: Map<Seq<u8>, Seq<u8>>, t: StorageDataType, value: Seq<u8>, now: u64) -> Result<
    Map<Seq<u8>, Seq<u8>>,
    StoreError,
> {
    match operation(t) {
        Some((kind, save)) => match parse_record_request(value) {
            Some(q) => if save {
                Ok(m.insert(key_of(kind, q.cluster_name, q.name), saved_bytes(q.content, now)))
            } else {
                Ok(m.remove(key_of(kind, q.cluster_name, q.name)))
            },
            None => Err(StoreError::Decode),
        },
        None => match parse_retain_request(value) {
            Some(q) => retain_set(m, q.cluster_name, q.topic_name, q.retain_message, q.expired_at, now),
            None => Err(StoreError::Decode),
        },
    }
}

/// Applies a committed proposal to the store at second `now`.
pub fn apply_storage_data(store: &mut MetadataStore, data: &StorageData, now: u64) -> (r: Result<
    (),
    StoreError,
>)
    requires
        old(store).wf(),
    ensures
        final(store).wf(),
        match applied(old(store).map(), data.data_type, data.value@, now) {
            Ok(m) => r is Ok && final(store).map() == m,
            Err(e) => r == Err::<(), StoreError>(e) && final(store).map() == old(store).map(),
        },
{
    let (kind, save): (RecordKind, bool) = match data.data_type {
        StorageDataType::MQTTCreateUser => (RecordKind::User, true),
        StorageDataType::MQTTDeleteUser => (RecordKind::User, false),
        StorageDataType::MQTTCreateTopic => (RecordKind::Topic, true),
        StorageDataType::MQTTDeleteTopic => (RecordKind::Topic, false),
        StorageDataType::MQTTCreateSession => (RecordKind::Session, true),
        StorageDataType::MQTTDeleteSession => (RecordKind::Session, false),
        StorageDataType::MQTTSaveLastWill => (RecordKind::LastWill, true),
        StorageDataType::MQTTDeleteLastWill => (RecordKind::LastWill, false),
        StorageDataType::MQTTSaveConnector => (RecordKind::Connector, true),
        StorageDataType::MQTTDeleteConnector => (RecordKind::Connector, false),
        StorageDataType::MQTTSetTopicRetainMessage => {
            return match RetainRequest::decode(data.value.as_slice()) {
                Some(q) => store.set_topic_retain_message(
                    q.cluster_name.as_slice(),
                    q.topic_name.as_slice(),
                    q.retain_message,
                    q.expired_at,
                    now,
                ),
                None => Err(StoreError::Decode),
            };
        },
    };
    let q = match RecordRequest::decode(data.value.as_slice()) {
        Some(q) => q,
        None => return Err(StoreError::Decode),
    };
    if save {
        store.save(kind, q.cluster_name.as_slice(), q.name.as_slice(), q.content, now);
    } else {
        store.delete(kind, q.cluster_name.as_slice(), q.name.as_slice());
    }
    Ok(())
}

/// The reply to a share-subscription leader query.
pub struct ShareSubLeaderReply {
    pub broker_id: u64,
    pub broker_addr: Vec<u8>,
    pub extend_info: Vec<u8>,
}

/// The ids of the cluster's nodes, in registry order.
pub open spec fn cluster_members(nodes: Seq<BrokerNode>, cluster: Seq<u8>) -> Seq<u64>
    decreases nodes.len(),
{
    if nodes.len() == 0 {
        Seq::empty()
    } else {
        let rest = cluster_members(nodes.drop_last(), cluster);
        if nodes.last().cluster_name@ == cluster {
            rest.push(nodes.last().node_id)
        } else {
            rest
        }
    }
}

/// Node `j` is the cluster's node with id `id`.
pub open spec fn node_is(nodes: Seq<BrokerNode>, j: int, cluster: Seq<u8>, id: u64) -> bool {
    0 <= j < nodes.len() && nodes[j].cluster_name@ == cluster && nodes[j].node_id == id
}

/// The payloads of listed envelopes.
pub open spec fn payloads(r: Result<Seq<crate::records::EnvelopeModel>, StoreError>) -> Result<
    Seq<Seq<u8>>,
    StoreError,
> {
    match r {
        Ok(es) => Ok(es.map_values(|e: crate::records::EnvelopeModel| e.data)),
        Err(e) => Err(e),
    }
}

pub open spec fn payloads_view(r: Result<Vec<Vec<u8>>, StoreError>) -> Result<Seq<Seq<u8>>, StoreError> {
    match r {
        Ok(v) => Ok(v@.map_values(|d: Vec<u8>| d@)),
        Err(e) => Err(e),
    }
}

/// The MQTT service of the placement center: node registry and metadata store.
pub struct GrpcMqttService {
    nodes: Vec<BrokerNode>,
    store: MetadataStore,
}

impl GrpcMqttService {
    pub closed spec fn node_list(&self) -> Seq<BrokerNode> {
        self.nodes@
    }

    pub closed spec fn metadata(&self) -> MetadataStore {
        self.store
    }

    pub fn new(nodes: Vec<BrokerNode>, store: MetadataStore) -> (r: GrpcMqttService)
        ensures
            r.node_list() == nodes@,
            r.metadata() == store,
    {
        GrpcMqttService { nodes, store }
    }

    /// The metadata store, to apply committed proposals to.
    pub fn store_mut(&mut self) -> (r: &mut MetadataStore)
        ensures
            *r == old(self).metadata(),
            final(self).metadata() == *final(r),
            final(self).node_list() == old(self).node_list(),
    {
        &mut self.store
    }

    fn members(&self, cluster: &[u8]) -> (r: Vec<u64>)
        ensures
            r@ == cluster_members(self.nodes@, cluster@),
    {
        let mut r: Vec<u64> = Vec::new();
        let mut i: usize = 0;
        while i < self.nodes.len()
            invariant
                i <= self.nodes.len(),
                r@ == cluster_members(self.nodes@.take(i as int), cluster@),
            decreases self.nodes.len() - i,
        {
            proof {
                assert(self.nodes@.take(i as int + 1).drop_last() =~= self.nodes@.take(i as int));
                assert(self.nodes@.take(i as int + 1).last() == self.nodes@[i as int]);
            }
            if crate::order::bytes_eq(self.nodes[i].cluster_name.as_slice(), cluster) {
                r.push(self.nodes[i].node_id);
            }
            i += 1;
        }
        proof {
            assert(self.nodes@.take(i as int) =~= self.nodes@);
        }
        r
    }

    /// The broker leading `group` in `cluster`, joined with its node record.
    /// Fails with `NoBrokerAvailable` when the cluster has no node.
    pub fn get_share_sub_leader(&self, cluster_name: &[u8], group_name: &[u8]) -> (r: Result<
        ShareSubLeaderReply,
        ShareSubError,
    >)
        ensures
            r is Err <==> cluster_members(self.node_list(), cluster_name@).len() == 0,
            r is Err ==> r->Err_0 == ShareSubError::NoBrokerAvailable,
            r is Ok ==> ({
                let rep = r->Ok_0;
                &&& is_leader(
                    cluster_members(self.node_list(), cluster_name@).to_set(),
                    group_name@,
                    rep.broker_id,
                )
                &&& exists|j: int|
                    node_is(self.node_list(), j, cluster_name@, rep.broker_id)
                        && rep.broker_addr@ == self.node_list()[j].node_inner_addr@
                        && rep.extend_info@ == self.node_list()[j].extend@
            }),
    {
        let members = self.members(cluster_name);
        let leader = match calc_share_sub_leader(group_name, members.as_slice()) {
            Ok(id) => id,
            Err(e) => return Err(e),
        };
        let mut i: usize = 0;
        while i < self.nodes.len()
            invariant
                i <= self.nodes.len(),
                members@ == cluster_members(self.nodes@, cluster_name@),
                members@.to_set().contains(leader),
                is_leader(members@.to_set(), group_name@, leader),
                forall|j: int| 0 <= j < i ==> !node_is(self.nodes@, j, cluster_name@, leader),
            decreases self.nodes.len() - i,
        {
            if self.nodes[i].node_id == leader && crate::order::bytes_eq(
                self.nodes[i].cluster_name.as_slice(),
                cluster_name,
            ) {
                let rep = ShareSubLeaderReply {
                    broker_id: leader,
                    broker_addr: self.nodes[i].node_inner_addr.clone(),
                    extend_info: self.nodes[i].extend.clone(),
                };
                proof {
                    assert(rep.broker_addr@ =~= self.nodes@[i as int].node_inner_addr@);
                    assert(rep.extend_info@ =~= self.nodes@[i as int].extend@);
                    assert(node_is(self.nodes@, i as int, cluster_name@, leader));
                    assert(self.node_list() == self.nodes@);
                    assert(is_leader(
                        cluster_members(self.node_list(), cluster_name@).to_set(),
                        group_name@,
                        rep.broker_id,
                    ));
                    assert(node_is(self.node_list(), i as int, cluster_name@, rep.broker_id)
                        && rep.broker_addr@ == self.node_list()[i as int].node_inner_addr@
                        && rep.extend_info@ == self.node_list()[i as int].extend@);
                    assert(exists|j: int|
                        node_is(self.node_list(), j, cluster_name@, rep.broker_id)
                            && rep.broker_addr@ == self.node_list()[j].node_inner_addr@
                            && rep.extend_info@ == self.node_list()[j].extend@);
                }
                return Ok(rep);
            }
            i += 1;
        }
        proof {
            lemma_member_has_node(self.nodes@, cluster_name@, leader);
        }
        Ok(ShareSubLeaderReply { broker_id: 0, broker_addr: Vec::new(), extend_info: Vec::new() })
    }

    /// The user `username` of the cluster, as a list of at most one payload.
    pub fn list_user(&self, cluster_name: &[u8], username: &[u8]) -> (r: Result<Vec<Vec<u8>>, StoreError>)
        requires
            self.metadata().wf(),
        ensures
            payloads_view(r) == payloads(
                list_one(
                    read_result(
                        lookup(
                            self.metadata().map(),
                            key_of(RecordKind::User, cluster_name@, username@),
                        ),
                    ),
                ),
            ),
    {
        self.list_payloads(RecordKind::User, cluster_name, username)
    }

    /// The topic `topic_name` of the cluster, as a list of at most one payload.
    pub fn list_topic(&self, cluster_name: &[u8], topic_name: &[u8]) -> (r: Result<Vec<Vec<u8>>, StoreError>)
        requires
            self.metadata().wf(),
        ensures
            payloads_view(r) == payloads(
                list_one(
                    read_result(
                        lookup(
                            self.metadata().map(),
                            key_of(RecordKind::Topic, cluster_name@, topic_name@),
                        ),
                    ),
                ),
            ),
    {
        self.list_payloads(RecordKind::Topic, cluster_name, topic_name)
    }

    /// The session of `client_id` in the cluster, as a list of at most one payload.
    pub fn list_session(&self, cluster_name: &[u8], client_id: &[u8]) -> (r: Result<Vec<Vec<u8>>, StoreError>)
        requires
            self.metadata().wf(),
        ensures
            payloads_view(r) == payloads(
                list_one(
                    read_result(
                        lookup(
                            self.metadata().map(),
                            key_of(RecordKind::Session, cluster_name@, client_id@),
                        ),
                    ),
                ),
            ),
    {
        self.list_payloads(RecordKind::Session, cluster_name, client_id)
    }

    fn list_payloads(&self, kind: RecordKind, cluster: &[u8], name: &[u8]) -> (r: Result<Vec<Vec<u8>>, StoreError>)
        requires
            self.store.wf(),
        ensures
            payloads_view(r) == payloads(
                list_one(read_result(lookup(self.store.map(), key_of(kind, cluster@, name@)))),
            ),
    {
        match self.store.list(kind, cluster, Some(name)) {
            Ok(v) => {
                let ghost es = envelopes_view(v@);
                let mut out: Vec<Vec<u8>> = Vec::new();
                let mut i: usize = 0;
                while i < v.len()
                    invariant
                        i <= v.len(),
                        es == envelopes_view(v@),
                        out@.len() == i,
                        forall|j: int| 0 <= j < i ==> #[trigger] out@[j]@ == es[j].data,
                    decreases v.len() - i,
                {
                    out.push(v[i].data.clone());
                    proof {
                        assert(out@[i as int]@ =~= es[i as int].data);
                    }
                    i += 1;
                }
                proof {
                    assert(out@.map_values(|d: Vec<u8>| d@) =~= es.map_values(
                        |e: crate::records::EnvelopeModel| e.data,
                    ));
                }
                Ok(out)
            },
            Err(e) => Err(e),
        }
    }

    /// The proposal for creating a user.
    pub fn create_user(&self, req: &RecordRequest) -> (r: StorageData)
        ensures
            r.data_type == StorageDataType::MQTTCreateUser,
            r.value@ == record_request_bytes(req@),
    {
        StorageData::new(StorageDataType::MQTTCreateUser, req.encode())
    }

    /// The proposal for deleting a user.
    pub fn delete_user(&self, req: &RecordRequest) -> (r: StorageData)
        ensures
            r.data_type == StorageDataType::MQTTDeleteUser,
            r.value@ == record_request_bytes(req@),
    {
        StorageData::new(StorageDataType::MQTTDeleteUser, req.encode())
    }

    /// The proposal for creating a topic.
    pub fn create_topic(&self, req: &RecordRequest) -> (r: StorageData)
        ensures
            r.data_type == StorageDataType::MQTTCreateTopic,
            r.value@ == record_request_bytes(req@),
    {
        StorageData::new(StorageDataType::MQTTCreateTopic, req.encode())
    }

    /// The proposal for deleting a topic.
    pub fn delete_topic(&self, req: &RecordRequest) -> (r: StorageData)
        ensures
            r.data_type == StorageDataType::MQTTDeleteTopic,
            r.value@ == record_request_bytes(req@),
    {
        StorageData::new(StorageDataType::MQTTDeleteTopic, req.encode())
    }

    /// The proposal for creating a session.
    pub fn create_session(&self, req: &RecordRequest) -> (r: StorageData)
        ensures
            r.data_type == StorageDataType::MQTTCreateSession,
            r.value@ == record_request_bytes(req@),
    {
        StorageData::new(StorageDataType::MQTTCreateSession, req.encode())
    }

    /// The proposal for deleting a session.
    pub fn delete_session(&self, req: &RecordRequest) -> (r: StorageData)
        ensures
            r.data_type == StorageDataType::MQTTDeleteSession,
            r.value@ == record_request_bytes(req@),
    {
        StorageData::new(StorageDataType::MQTTDeleteSession, req.encode())
    }
}

proof fn lemma_member_has_node(nodes: Seq<BrokerNode>, cluster: Seq<u8>, id: u64)
    requires
        cluster_members(nodes, cluster).to_set().contains(id),
    ensures
        exists|j: int| node_is(nodes, j, cluster, id),
    decreases nodes.len(),
{
    let rest = nodes.drop_last();
    let ms = cluster_members(nodes, cluster);
    let k = choose|k: int| 0 <= k < ms.len() && ms[k] == id;
    if nodes.last().cluster_name@ == cluster && nodes.last().node_id == id {
        assert(node_is(nodes, nodes.len() - 1, cluster, id));
    } else {
        let rs = cluster_members(rest, cluster);
        if nodes.last().cluster_name@ == cluster {
            assert(ms == rs.push(nodes.last().node_id));
            assert(k < rs.len());
            assert(rs[k] == id);
        }
        assert(rs.to_set().contains(id));
        lemma_member_has_node(rest, cluster, id);
        let j = choose|j: int| node_is(rest, j, cluster, id);
        assert(node_is(nodes, j, cluster, id));
    }
}

/// A user created through a proposal and then listed by name comes back as
/// one record whose payload is the submitted content.
pub proof fn law_create_then_list_user(
    m: Map<Seq<u8>, Seq<u8>>,
    req: RecordRequestModel,
    now: u64,
)
    requires
        req.cluster_name.len() <= u64::MAX,
        req.name.len() <= u64::MAX,
        req.content.len() <= u64::MAX,
    ensures
        ({
            let after = applied(m, StorageDataType::MQTTCreateUser, record_request_bytes(req), now);
            &&& after is Ok
            &&& payloads(
                list_one(read_result(lookup(after->Ok_0, key_of(RecordKind::User, req.cluster_name, req.name)))),
            ) == Ok::<Seq<Seq<u8>>, StoreError>(seq![req.content])
        }),
{
    crate::records::lemma_record_request_round_trip(req);
    crate::records::lemma_envelope_round_trip(
        crate::records::EnvelopeModel { create_time: now, data: req.content },
    );
    let es = seq![crate::records::EnvelopeModel { create_time: now, data: req.content }];
    assert(es.map_values(|e: crate::records::EnvelopeModel| e.data) =~= seq![req.content]);
}

} // verus!
