//! In-memory cache of cluster metadata: topics, users, connectors and last
//! wills waiting to be sent, each keyed by (cluster, name).
use vstd::prelude::*;
use dashmap::DashMap;
use crate::cluster::{ClusterInfo, ClusterType};
use crate::kv::KvSeq;
use crate::records::{
    connector_bytes, expire_last_will_bytes, parse_expire_last_will, parse_topic, parse_user,
    topic_bytes, user_bytes, Connector, EnvelopeModel, ExpireLastWill, ExpireLastWillModel, Topic,
    User,
};
use crate::store::{envelopes_view, list_under, prefix_of, MetadataStore, RecordKind};

verus! {

/// `dashmap::DashMap`, the sharded concurrent map that holds each cache collection.
#[verifier::external_type_specification]
#[verifier::external_body]
#[verifier::reject_recursive_types(K)]
#[verifier::reject_recursive_types(V)]
#[verifier::reject_recursive_types(S)]
pub struct ExDashMap<K, V, S>(DashMap<K, V, S>);

/// A cache collection: (cluster, name) to an encoded record.
pub type CacheMap = DashMap<(Vec<u8>, Vec<u8>), Vec<u8>>;

/// A cache key as bytes.
pub type KeyModel = (Seq<u8>, Seq<u8>);

/// What a cache collection holds.
pub uninterp spec fn cache_contents(m: CacheMap) -> Map<KeyModel, Seq<u8>>;

/// Relies on `DashMap::with_capacity`: a new map is empty.
#[verifier::external_body]
fn dash_new() -> (r: CacheMap)
    ensures
        cache_contents(r) == empty_cache(),
{
    DashMap::with_capacity(8)
}

/// Relies on `DashMap::insert`: the key afterwards maps to the value, replacing any earlier one.
#[verifier::external_body]
fn dash_insert(m: &mut CacheMap, cluster: &[u8], name: &[u8], v: Vec<u8>)
    ensures
        cache_contents(*final(m)) == cache_contents(*old(m)).insert((cluster@, name@), v@),
{
    m.insert((cluster.to_vec(), name.to_vec()), v);
}

/// Relies on `DashMap::remove`: the key afterwards is absent; an absent key changes nothing.
#[verifier::external_body]
fn dash_remove(m: &mut CacheMap, cluster: &[u8], name: &[u8])
    ensures
        cache_contents(*final(m)) == cache_contents(*old(m)).remove((cluster@, name@)),
{
    m.remove(&(cluster.to_vec(), name.to_vec()));
}

/// Relies on `DashMap::iter`: it yields every entry once, in no set order.
#[verifier::external_body]
fn dash_entries(m: &CacheMap) -> (r: Vec<((Vec<u8>, Vec<u8>), Vec<u8>)>)
    ensures
        forall|i: int|
            0 <= i < r@.len() ==> #[trigger] cache_contents(*m).contains_key(key_view(r@[i].0))
                && cache_contents(*m)[key_view(r@[i].0)] == r@[i].1@,
        forall|k: KeyModel| #[trigger]
            cache_contents(*m).contains_key(k) ==> exists|i: int|
                0 <= i < r@.len() && key_view(r@[i].0) == k,
        forall|i: int, j: int|
            0 <= i < j < r@.len() ==> key_view(#[trigger] r@[i].0) != key_view(#[trigger] r@[j].0),
{
    m.iter().map(|e| (e.key().clone(), e.value().clone())).collect()
}

/// The empty cache collection.
pub open spec fn empty_cache() -> Map<KeyModel, Seq<u8>> {
    Map::empty()
}

pub open spec fn key_view(k: (Vec<u8>, Vec<u8>)) -> KeyModel {
    (k.0@, k.1@)
}

/// The names held for `cluster`.
pub open spec fn names_in(m: Map<KeyModel, Seq<u8>>, cluster: Seq<u8>) -> Set<Seq<u8>> {
    Set::new(|n: Seq<u8>| m.contains_key((cluster, n)))
}

/// The last wills of `cluster` whose delay has passed at `now`.
pub open spec fn due_wills(m: Map<KeyModel, Seq<u8>>, cluster: Seq<u8>, now: u64) -> Set<
    ExpireLastWillModel,
> {
    Set::new(
        |w: ExpireLastWillModel|
            exists|id: Seq<u8>|
                #[trigger] m.contains_key((cluster, id)) && parse_expire_last_will(m[(cluster, id)])
                    == Some(w) && is_send_last_will(w, now),
    )
}

/// A waiting last will may be sent once its delay has passed.
pub open spec fn is_send_last_will(w: ExpireLastWillModel, now: u64) -> bool {
    now >= w.delay_sec
}

/// A snapshot entry is a will of `cluster` that is due at `now`.
pub open spec fn due_entry(
    e: ((Vec<u8>, Vec<u8>), Vec<u8>),
    cluster: Seq<u8>,
    now: u64,
    w: ExpireLastWillModel,
) -> bool {
    e.0.0@ == cluster && parse_expire_last_will(e.1@) == Some(w) && is_send_last_will(w, now)
}

/// Views of a sequence of waiting last wills.
pub open spec fn wills_view(v: Seq<ExpireLastWill>) -> Seq<ExpireLastWillModel> {
    v.map_values(|w: ExpireLastWill| w@)
}

/// Views of a vector of byte strings.
pub open spec fn names_view(v: Seq<Vec<u8>>) -> Seq<Seq<u8>> {
    v.map_values(|n: Vec<u8>| n@)
}

/// The names that a cache collection holds for `cluster`.
fn names_of(m: &CacheMap, cluster: &[u8]) -> (r: Vec<Vec<u8>>)
    ensures
        names_view(r@).to_set() == names_in(cache_contents(*m), cluster@),
        names_view(r@).no_duplicates(),
{
    let entries = dash_entries(m);
    let ghost c = cluster@;
    let ghost mm = cache_contents(*m);
    let mut r: Vec<Vec<u8>> = Vec::new();
    let mut i: usize = 0;
    while i < entries.len()
        invariant
            i <= entries.len(),
            c == cluster@,
            mm == cache_contents(*m),
            forall|j: int|
                0 <= j < entries@.len() ==> #[trigger] cache_contents(*m).contains_key(
                    key_view(entries@[j].0),
                ),
            forall|j: int, k: int|
                0 <= j < k < entries@.len() ==> key_view(#[trigger] entries@[j].0) != key_view(
                    #[trigger] entries@[k].0,
                ),
            forall|n: Seq<u8>| #[trigger]
                names_view(r@).contains(n) <==> exists|j: int|
                    0 <= j < i && key_view(entries@[j].0) == (c, n),
            names_view(r@).no_duplicates(),
        decreases entries.len() - i,
    {
        let ghost r0 = names_view(r@);
        let hit = crate::order::bytes_eq(entries[i].0.0.as_slice(), cluster);
        if hit {
            r.push(entries[i].0.1.clone());
            proof {
                assert(names_view(r@) =~= r0.push(entries@[i as int].0.1@));
                let n = entries@[i as int].0.1@;
                if r0.contains(n) {
                    let j = choose|j: int| 0 <= j < i && key_view(entries@[j].0) == (c, n);
                    assert(key_view(entries@[i as int].0) == (c, n));
                }
            }
        }
        proof {
            let r1 = names_view(r@);
            assert forall|n: Seq<u8>| #[trigger] r1.contains(n) <==> exists|j: int|
                0 <= j < i + 1 && key_view(entries@[j].0) == (c, n) by {
                if r1.contains(n) && !r0.contains(n) {
                    let k = choose|k: int| 0 <= k < r1.len() && r1[k] == n;
                    assert(hit && k == r1.len() - 1);
                    assert(key_view(entries@[i as int].0) == (c, n));
                }
                if r0.contains(n) {
                    let k = choose|k: int| 0 <= k < r0.len() && r0[k] == n;
                    assert(r1[k] == n);
                }
                if exists|j: int| 0 <= j < i + 1 && key_view(entries@[j].0) == (c, n) {
                    let j = choose|j: int| 0 <= j < i + 1 && key_view(entries@[j].0) == (c, n);
                    if j == i {
                        assert(r1[r1.len() - 1] == n);
                    }
                }
            }
        }
        i += 1;
    }
    proof {
        let rs = names_view(r@);
        assert forall|n: Seq<u8>| #[trigger] rs.to_set().contains(n) <==> names_in(mm, c).contains(n) by {
            if names_in(mm, c).contains(n) {
                assert(mm.contains_key((c, n)));
                let j = choose|j: int| 0 <= j < entries@.len() && key_view(entries@[j].0) == (c, n);
            }
            if rs.contains(n) {
                let j = choose|j: int| 0 <= j < i && key_view(entries@[j].0) == (c, n);
                assert(mm.contains_key(key_view(entries@[j].0)));
            }
        }
        assert(rs.to_set() =~= names_in(mm, c));
    }
    r
}

/// Adding a topic and then removing it leaves the cluster without that name,
/// and removing a name that is absent changes nothing.
pub proof fn law_add_remove(m: Map<KeyModel, Seq<u8>>, cluster: Seq<u8>, name: Seq<u8>, v: Seq<u8>)
    ensures
        !names_in(m.insert((cluster, name), v).remove((cluster, name)), cluster).contains(name),
        !m.contains_key((cluster, name)) ==> m.remove((cluster, name)) == m,
{
    assert(!m.contains_key((cluster, name)) ==> m.remove((cluster, name)) =~= m);
}

/// The metadata cache of the placement service.
pub struct MqttCacheManager {
    topic_list: CacheMap,
    user_list: CacheMap,
    expire_last_wills: CacheMap,
    connector_list: CacheMap,
}

impl MqttCacheManager {
    /// Topics by (cluster, topic name), encoded.
    pub closed spec fn topics(&self) -> Map<KeyModel, Seq<u8>> {
        cache_contents(self.topic_list)
    }

    /// Users by (cluster, username), encoded.
    pub closed spec fn users(&self) -> Map<KeyModel, Seq<u8>> {
        cache_contents(self.user_list)
    }

    /// Waiting last wills by (cluster, client id), encoded.
    pub closed spec fn wills(&self) -> Map<KeyModel, Seq<u8>> {
        cache_contents(self.expire_last_wills)
    }

    /// Connectors by (cluster, connector name), encoded.
    pub closed spec fn connectors(&self) -> Map<KeyModel, Seq<u8>> {
        cache_contents(self.connector_list)
    }

    pub fn new() -> (r: MqttCacheManager)
        ensures
            r.topics() == empty_cache(),
            r.users() == empty_cache(),
            r.wills() == empty_cache(),
            r.connectors() == empty_cache(),
    {
        MqttCacheManager {
            topic_list: dash_new(),
            user_list: dash_new(),
            expire_last_wills: dash_new(),
            connector_list: dash_new(),
        }
    }

    pub fn add_topic(&mut self, cluster_name: &[u8], topic: Topic)
        ensures
            final(self).topics() == old(self).topics().insert(
                (cluster_name@, topic.topic_name@),
                topic_bytes(topic@),
            ),
            final(self).users() == old(self).users(),
            final(self).wills() == old(self).wills(),
            final(self).connectors() == old(self).connectors(),
    {
        let bytes = topic.encode();
        dash_insert(&mut self.topic_list, cluster_name, topic.topic_name.as_slice(), bytes);
    }

    pub fn remove_topic(&mut self, cluster_name: &[u8], topic_name: &[u8])
        ensures
            final(self).topics() == old(self).topics().remove((cluster_name@, topic_name@)),
            final(self).users() == old(self).users(),
            final(self).wills() == old(self).wills(),
            final(self).connectors() == old(self).connectors(),
    {
        dash_remove(&mut self.topic_list, cluster_name, topic_name);
    }

    pub fn add_user(&mut self, cluster_name: &[u8], user: User)
        ensures
            final(self).users() == old(self).users().insert(
                (cluster_name@, user.username@),
                user_bytes(user@),
            ),
            final(self).topics() == old(self).topics(),
            final(self).wills() == old(self).wills(),
            final(self).connectors() == old(self).connectors(),
    {
        let bytes = user.encode();
        dash_insert(&mut self.user_list, cluster_name, user.username.as_slice(), bytes);
    }

    pub fn remove_user(&mut self, cluster_name: &[u8], user_name: &[u8])
        ensures
            final(self).users() == old(self).users().remove((cluster_name@, user_name@)),
            final(self).topics() == old(self).topics(),
            final(self).wills() == old(self).wills(),
            final(self).connectors() == old(self).connectors(),
    {
        dash_remove(&mut self.user_list, cluster_name, user_name);
    }

    pub fn add_expire_last_will(&mut self, expire_last_will: ExpireLastWill)
        ensures
            final(self).wills() == old(self).wills().insert(
                (expire_last_will.cluster_name@, expire_last_will.client_id@),
                expire_last_will_bytes(expire_last_will@),
            ),
            final(self).topics() == old(self).topics(),
            final(self).users() == old(self).users(),
            final(self).connectors() == old(self).connectors(),
    {
        let bytes = expire_last_will.encode();
        dash_insert(
            &mut self.expire_last_wills,
            expire_last_will.cluster_name.as_slice(),
            expire_last_will.client_id.as_slice(),
            bytes,
        );
    }

    pub fn remove_expire_last_will(&mut self, cluster_name: &[u8], client_id: &[u8])
        ensures
            final(self).wills() == old(self).wills().remove((cluster_name@, client_id@)),
            final(self).topics() == old(self).topics(),
            final(self).users() == old(self).users(),
            final(self).connectors() == old(self).connectors(),
    {
        dash_remove(&mut self.expire_last_wills, cluster_name, client_id);
    }

    pub fn add_connector(&mut self, cluster_name: &[u8], connector: &Connector)
        ensures
            final(self).connectors() == old(self).connectors().insert(
                (cluster_name@, connector.connector_name@),
                connector_bytes(connector@),
            ),
            final(self).topics() == old(self).topics(),
            final(self).users() == old(self).users(),
            final(self).wills() == old(self).wills(),
    {
        let bytes = connector.encode();
        dash_insert(
            &mut self.connector_list,
            cluster_name,
            connector.connector_name.as_slice(),
            bytes,
        );
    }

    pub fn remove_connector(&mut self, cluster_name: &[u8], connector_name: &[u8])
        ensures
            final(self).connectors() == old(self).connectors().remove(
                (cluster_name@, connector_name@),
            ),
            final(self).topics() == old(self).topics(),
            final(self).users() == old(self).users(),
            final(self).wills() == old(self).wills(),
    {
        dash_remove(&mut self.connector_list, cluster_name, connector_name);
    }

    /// The names of the cluster's cached topics, in no set order.
    pub fn topic_names(&self, cluster_name: &[u8]) -> (r: Vec<Vec<u8>>)
        ensures
            names_view(r@).to_set() == names_in(self.topics(), cluster_name@),
            names_view(r@).no_duplicates(),
    {
        names_of(&self.topic_list, cluster_name)
    }

    /// The names of the cluster's cached users, in no set order.
    pub fn user_names(&self, cluster_name: &[u8]) -> (r: Vec<Vec<u8>>)
        ensures
            names_view(r@).to_set() == names_in(self.users(), cluster_name@),
            names_view(r@).no_duplicates(),
    {
        names_of(&self.user_list, cluster_name)
    }

    /// The names of the cluster's cached connectors, in no set order.
    pub fn connector_names(&self, cluster_name: &[u8]) -> (r: Vec<Vec<u8>>)
        ensures
            names_view(r@).to_set() == names_in(self.connectors(), cluster_name@),
            names_view(r@).no_duplicates(),
    {
        names_of(&self.connector_list, cluster_name)
    }

    /// The last wills of the cluster that may be sent at `now`.
    pub fn get_expire_last_wills(&self, cluster_name: &[u8], now: u64) -> (r: Vec<ExpireLastWill>)
        ensures
            wills_view(r@).to_set() == due_wills(
                self.wills(),
                cluster_name@,
                now,
            ),
    {
        let entries = dash_entries(&self.expire_last_wills);
        let ghost m = self.wills();
        let ghost c = cluster_name@;
        let mut r: Vec<ExpireLastWill> = Vec::new();
        let mut i: usize = 0;
        while i < entries.len()
            invariant
                i <= entries.len(),
                m == cache_contents(self.expire_last_wills),
                c == cluster_name@,
                forall|j: int|
                    0 <= j < entries@.len() ==> #[trigger] cache_contents(
                        self.expire_last_wills,
                    ).contains_key(key_view(entries@[j].0)) && cache_contents(
                        self.expire_last_wills,
                    )[key_view(entries@[j].0)] == entries@[j].1@,
                forall|w: ExpireLastWillModel| #[trigger]
                    wills_view(r@).contains(w) <==> exists|j: int|
                        0 <= j < i && due_entry(entries@[j], c, now, w),
            decreases entries.len() - i,
        {
            let ghost r0 = wills_view(r@);
            let ghost mut added: Option<ExpireLastWillModel> = None;
            if crate::order::bytes_eq(entries[i].0.0.as_slice(), cluster_name) {
                if let Some(w) = ExpireLastWill::decode(entries[i].1.as_slice()) {
                    if now >= w.delay_sec {
                        proof {
                            added = Some(w@);
                        }
                        r.push(w);
                        proof {
                            assert(wills_view(r@) =~= r0.push(r@[r@.len() - 1]@));
                        }
                    }
                }
            }
            proof {
                let r1 = wills_view(r@);
                assert(forall|x: ExpireLastWillModel|
                    due_entry(entries@[i as int], c, now, x) <==> added == Some(x));
                assert(added is None ==> r1 == r0);
                assert(added is Some ==> r1 == r0.push(added->Some_0));
                assert forall|w: ExpireLastWillModel| #[trigger] r1.contains(w) <==> exists|j: int|
                    0 <= j < i + 1 && due_entry(entries@[j], c, now, w) by {
                    if r1.contains(w) && !r0.contains(w) {
                        let k = choose|k: int| 0 <= k < r1.len() && r1[k] == w;
                        assert(k == r1.len() - 1);
                        assert(due_entry(entries@[i as int], c, now, w));
                    }
                    if r0.contains(w) {
                        let k = choose|k: int| 0 <= k < r0.len() && r0[k] == w;
                        assert(r1[k] == w);
                    }
                    if exists|j: int| 0 <= j < i + 1 && due_entry(entries@[j], c, now, w) {
                        let j = choose|j: int| 0 <= j < i + 1 && due_entry(entries@[j], c, now, w);
                        if j == i {
                            assert(r1[r1.len() - 1] == w);
                        }
                    }
                }
            }
            i += 1;
        }
        proof {
            let rs = wills_view(r@);
            assert forall|w: ExpireLastWillModel| #[trigger] rs.to_set().contains(w) <==> due_wills(m, c, now).contains(w) by {
                if due_wills(m, c, now).contains(w) {
                    let id = choose|id: Seq<u8>|
                        #[trigger] m.contains_key((c, id)) && parse_expire_last_will(m[(c, id)]) == Some(w)
                            && is_send_last_will(w, now);
                    assert(m.contains_key((c, id)));
                    let j = choose|j: int| 0 <= j < entries@.len() && key_view(entries@[j].0) == (c, id);
                    assert(m.contains_key(key_view(entries@[j].0)));
                }
                if rs.contains(w) {
                    let j = choose|j: int| 0 <= j < i && due_entry(entries@[j], c, now, w);
                    assert(m.contains_key(key_view(entries@[j].0)));
                    assert(key_view(entries@[j].0) == (c, entries@[j].0.1@));
                }
            }
            assert(rs.to_set() =~= due_wills(m, c, now));
        }
        r
    }
}

/// The cache entry that warm-up makes of one stored envelope of a cluster, if its payload decodes.
pub open spec fn warm_entry(kind: RecordKind, cluster: Seq<u8>) -> spec_fn(EnvelopeModel) -> Option<
    (KeyModel, Seq<u8>),
> {
    |e: EnvelopeModel|
        if kind == RecordKind::User {
            match parse_user(e.data) {
                Some(u) => Some(((cluster, u.username), user_bytes(u))),
                None => None,
            }
        } else {
            match parse_topic(e.data) {
                Some(t) => Some(((cluster, t.topic_name), topic_bytes(t))),
                None => None,
            }
        }
}

/// The map after the given inserts, in order.
pub open spec fn insert_all(m: Map<KeyModel, Seq<u8>>, w: Seq<(KeyModel, Seq<u8>)>) -> Map<
    KeyModel,
    Seq<u8>,
>
    decreases w.len(),
{
    if w.len() == 0 {
        m
    } else {
        insert_all(m, w.drop_last()).insert(w.last().0, w.last().1)
    }
}

/// The inserts that loading one cluster's records of a family makes.
pub open spec fn cluster_inserts(s: KvSeq, kind: RecordKind, cluster: Seq<u8>) -> Seq<
    (KeyModel, Seq<u8>),
> {
    list_under(s, prefix_of(kind, cluster)).filter_map(warm_entry(kind, cluster))
}

/// A cache collection after warm-up over `clusters` from the store entries `s`.
pub open spec fn warm(
    m: Map<KeyModel, Seq<u8>>,
    s: KvSeq,
    clusters: Seq<(Seq<u8>, ClusterType)>,
    kind: RecordKind,
) -> Map<KeyModel, Seq<u8>>
    decreases clusters.len(),
{
    if clusters.len() == 0 {
        m
    } else {
        let m1 = warm(m, s, clusters.drop_last(), kind);
        let c = clusters.last();
        if c.1 == ClusterType::MqttBrokerServer {
            insert_all(m1, cluster_inserts(s, kind, c.0))
        } else {
            m1
        }
    }
}

pub open spec fn clusters_view(v: Seq<ClusterInfo>) -> Seq<(Seq<u8>, ClusterType)> {
    v.map_values(|c: ClusterInfo| c@)
}

impl MqttCacheManager {
    /// Adds the topics or users (by `kind`) stored for one cluster.
    fn load_family(&mut self, store: &MetadataStore, kind: RecordKind, cluster: &[u8])
        requires
            store.wf(),
            kind == RecordKind::User || kind == RecordKind::Topic,
        ensures
            kind == RecordKind::User ==> final(self).users() == insert_all(
                old(self).users(),
                cluster_inserts(store.entries(), kind, cluster@),
            ) && final(self).topics() == old(self).topics(),
            kind == RecordKind::Topic ==> final(self).topics() == insert_all(
                old(self).topics(),
                cluster_inserts(store.entries(), kind, cluster@),
            ) && final(self).users() == old(self).users(),
            final(self).wills() == old(self).wills(),
            final(self).connectors() == old(self).connectors(),
    {
        let listed = store.list(kind, cluster, None);
        let envs = match listed {
            Ok(v) => v,
            Err(_) => {
                // a listing without a name always succeeds
                assert(false);
                return ;
            },
        };
        let ghost es = envelopes_view(envs@);
        let ghost f = warm_entry(kind, cluster@);
        let ghost u0 = self.users();
        let ghost t0 = self.topics();
        let mut i: usize = 0;
        while i < envs.len()
            invariant
                i <= envs.len(),
                es == envelopes_view(envs@),
                f == warm_entry(kind, cluster@),
                kind == RecordKind::User || kind == RecordKind::Topic,
                kind == RecordKind::User ==> self.users() == insert_all(u0, es.take(i as int).filter_map(f))
                    && self.topics() == t0,
                kind == RecordKind::Topic ==> self.topics() == insert_all(t0, es.take(i as int).filter_map(f))
                    && self.users() == u0,
                self.wills() == old(self).wills(),
                self.connectors() == old(self).connectors(),
            decreases envs.len() - i,
        {
            proof {
                reveal(Seq::filter_map);
                assert(es.take(i as int + 1).drop_last() =~= es.take(i as int));
                assert(es.take(i as int + 1).last() == es[i as int]);
            }
            let ghost w0 = es.take(i as int).filter_map(f);
            match kind {
                RecordKind::User => {
                    if let Some(u) = User::decode(envs[i].data.as_slice()) {
                        self.add_user(cluster, u);
                        proof {
                            let w1 = es.take(i as int + 1).filter_map(f);
                            assert(w1 == w0 + seq![f(es[i as int])->Some_0]);
                            assert(w1.drop_last() =~= w0);
                        }
                    }
                },
                _ => {
                    if let Some(t) = Topic::decode(envs[i].data.as_slice()) {
                        self.add_topic(cluster, t);
                        proof {
                            let w1 = es.take(i as int + 1).filter_map(f);
                            assert(w1 == w0 + seq![f(es[i as int])->Some_0]);
                            assert(w1.drop_last() =~= w0);
                        }
                    }
                },
            }
            i += 1;
        }
        proof {
            assert(es.take(i as int) =~= es);
        }
    }
}

/// Warm-up: for every cluster that runs MQTT brokers, loads its stored topics
/// and users into the cache. Records whose payload does not decode are skipped.
pub fn load_mqtt_cache(cache: &mut MqttCacheManager, store: &MetadataStore, clusters: &[ClusterInfo])
    requires
        store.wf(),
    ensures
        final(cache).topics() == warm(
            old(cache).topics(),
            store.entries(),
            clusters_view(clusters@),
            RecordKind::Topic,
        ),
        final(cache).users() == warm(
            old(cache).users(),
            store.entries(),
            clusters_view(clusters@),
            RecordKind::User,
        ),
        final(cache).wills() == old(cache).wills(),
        final(cache).connectors() == old(cache).connectors(),
{
    let ghost cs = clusters_view(clusters@);
    let mut i: usize = 0;
    while i < clusters.len()
        invariant
            i <= clusters.len(),
            cs == clusters_view(clusters@),
            store.wf(),
            cache.topics() == warm(old(cache).topics(), store.entries(), cs.take(i as int), RecordKind::Topic),
            cache.users() == warm(old(cache).users(), store.entries(), cs.take(i as int), RecordKind::User),
            cache.wills() == old(cache).wills(),
            cache.connectors() == old(cache).connectors(),
        decreases clusters.len() - i,
    {
        proof {
            assert(cs.take(i as int + 1).drop_last() =~= cs.take(i as int));
            assert(cs.take(i as int + 1).last() == cs[i as int]);
        }
        if clusters[i].cluster_type == ClusterType::MqttBrokerServer {
            cache.load_family(store, RecordKind::Topic, clusters[i].cluster_name.as_slice());
            cache.load_family(store, RecordKind::User, clusters[i].cluster_name.as_slice());
        }
        i += 1;
    }
    proof {
        assert(cs.take(i as int) =~= cs);
    }
}

} // verus!
