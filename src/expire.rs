//! Expiration sweeps: clearing expired retained messages and deleting
//! expired last-will records, one pass at a time.
use vstd::prelude::*;
use crate::kv::{pairs_view, prefix_pred, KvSeq};
use crate::records::{
    parse_envelope, parse_last_will, parse_topic, topic_bytes, Envelope, LastWill, LastWillModel,
    Topic, TopicModel,
};
use crate::store::{key_of, prefix_of, saved_bytes, MetadataStore, RecordKind};

verus! {

/// Seconds a last will lives when it names no message expiry interval: 30 days.
pub const LAST_WILL_DEFAULT_EXPIRY: u64 = 2592000;

/// A retained message stamped `create_time` with lifetime `expired_at` is
/// expired at second `now` (the bound itself counts as expired).
pub open spec fn retain_expired(create_time: u64, expired_at: u64, now: u64) -> bool {
    now as int >= create_time as int + expired_at as int
}

/// The lifetime of a last will, in seconds.
pub open spec fn last_will_lifetime(w: LastWillModel) -> u64 {
    match w.message_expiry_interval {
        Some(x) => x as u64,
        None => LAST_WILL_DEFAULT_EXPIRY,
    }
}

/// A last will stamped `create_time` is expired at second `now`.
pub open spec fn last_will_expired(create_time: u64, w: LastWillModel, now: u64) -> bool {
    now as int >= create_time as int + last_will_lifetime(w) as int
}

/// A topic with its retained message taken away.
pub open spec fn cleared(t: TopicModel) -> TopicModel {
    TopicModel { retain_message: None, retain_message_expired_at: None, ..t }
}

/// The save that the retained-message sweep makes for one stored topic entry, if any.
pub open spec fn retain_update(cluster: Seq<u8>, now: u64) -> spec_fn((Seq<u8>, Seq<u8>)) -> Option<
    (Seq<u8>, Seq<u8>),
> {
    |e: (Seq<u8>, Seq<u8>)|
        match parse_envelope(e.1) {
            Some(env) => match parse_topic(env.data) {
                Some(t) => match t.retain_message_expired_at {
                    Some(x) => if t.retain_message is Some && retain_expired(env.create_time, x, now) {
                        Some(
                            (
                                key_of(RecordKind::Topic, cluster, t.topic_name),
                                saved_bytes(topic_bytes(cleared(t)), now),
                            ),
                        )
                    } else {
                        None
                    },
                    None => None,
                },
                None => None,
            },
            None => None,
        }
}

/// The key that the last-will sweep deletes for one stored last-will entry, if any.
pub open spec fn last_will_removal(cluster: Seq<u8>, now: u64) -> spec_fn((Seq<u8>, Seq<u8>)) -> Option<
    Seq<u8>,
> {
    |e: (Seq<u8>, Seq<u8>)|
        match parse_envelope(e.1) {
            Some(env) => match parse_last_will(env.data) {
                Some(w) => if last_will_expired(env.create_time, w, now) {
                    Some(key_of(RecordKind::LastWill, cluster, w.client_id))
                } else {
                    None
                },
                None => None,
            },
            None => None,
        }
}

/// The map after the given writes, in order.
pub open spec fn apply_writes(m: Map<Seq<u8>, Seq<u8>>, w: Seq<(Seq<u8>, Seq<u8>)>) -> Map<
    Seq<u8>,
    Seq<u8>,
>
    decreases w.len(),
{
    if w.len() == 0 {
        m
    } else {
        apply_writes(m, w.drop_last()).insert(w.last().0, w.last().1)
    }
}

/// The map after the given keys are removed.
pub open spec fn apply_removals(m: Map<Seq<u8>, Seq<u8>>, ks: Seq<Seq<u8>>) -> Map<Seq<u8>, Seq<u8>>
    decreases ks.len(),
{
    if ks.len() == 0 {
        m
    } else {
        apply_removals(m, ks.drop_last()).remove(ks.last())
    }
}

/// The store map after one retained-message sweep of `cluster` at second `now`.
pub open spec fn retain_sweep(s: KvSeq, m: Map<Seq<u8>, Seq<u8>>, cluster: Seq<u8>, now: u64) -> Map<
    Seq<u8>,
    Seq<u8>,
> {
    apply_writes(
        m,
        s.filter(prefix_pred(prefix_of(RecordKind::Topic, cluster))).filter_map(
            retain_update(cluster, now),
        ),
    )
}

/// The store map after one last-will sweep of `cluster` at second `now`.
pub open spec fn last_will_sweep(s: KvSeq, m: Map<Seq<u8>, Seq<u8>>, cluster: Seq<u8>, now: u64) -> Map<
    Seq<u8>,
    Seq<u8>,
> {
    apply_removals(
        m,
        s.filter(prefix_pred(prefix_of(RecordKind::LastWill, cluster))).filter_map(
            last_will_removal(cluster, now),
        ),
    )
}

/// A retained message expires exactly at `create_time + expired_at`, not a second before.
pub proof fn law_retain_expiry_boundary(create_time: u64, expired_at: u64)
    requires
        create_time + expired_at <= u64::MAX,
    ensures
        retain_expired(create_time, expired_at, (create_time + expired_at) as u64),
        create_time + expired_at > 0 ==> !retain_expired(
            create_time,
            expired_at,
            (create_time + expired_at - 1) as u64,
        ),
{
}

/// A last will without a message expiry interval expires 30 days after it was saved.
pub proof fn law_last_will_default_expiry(create_time: u64, w: LastWillModel)
    requires
        w.message_expiry_interval is None,
        create_time + LAST_WILL_DEFAULT_EXPIRY <= u64::MAX,
    ensures
        last_will_expired(create_time, w, (create_time + 2592000) as u64),
        !last_will_expired(create_time, w, (create_time + 2592000 - 1) as u64),
{
}

/// With no key under the cluster's prefix, a sweep leaves the store as it was.
pub proof fn law_sweep_empty_cluster(s: KvSeq, m: Map<Seq<u8>, Seq<u8>>, cluster: Seq<u8>, now: u64)
    ensures
        s.filter(prefix_pred(prefix_of(RecordKind::Topic, cluster))).len() == 0 ==> retain_sweep(
            s,
            m,
            cluster,
            now,
        ) == m,
        s.filter(prefix_pred(prefix_of(RecordKind::LastWill, cluster))).len() == 0
            ==> last_will_sweep(s, m, cluster, now) == m,
{
    reveal(Seq::filter_map);
}

/// Whether a retained message is expired, without overflow.
pub fn is_retain_expired(create_time: u64, expired_at: u64, now: u64) -> (r: bool)
    ensures
        r == retain_expired(create_time, expired_at, now),
{
    if expired_at > u64::MAX - create_time {
        false
    } else {
        now >= create_time + expired_at
    }
}

/// Whether a last will is expired, without overflow.
pub fn is_last_will_expired(create_time: u64, w: &LastWill, now: u64) -> (r: bool)
    ensures
        r == last_will_expired(create_time, w@, now),
{
    let lifetime: u64 = match w.message_expiry_interval {
        Some(x) => x as u64,
        None => LAST_WILL_DEFAULT_EXPIRY,
    };
    if lifetime > u64::MAX - create_time {
        false
    } else {
        now >= create_time + lifetime
    }
}

/// The expiration sweeps of one cluster.
pub struct MessageExpire {
    cluster_name: Vec<u8>,
}

impl View for MessageExpire {
    type V = Seq<u8>;

    /// The cluster swept.
    closed spec fn view(&self) -> Seq<u8> {
        self.cluster_name@
    }
}

impl MessageExpire {
    pub fn new(cluster_name: Vec<u8>) -> (r: MessageExpire)
        ensures
            r@ == cluster_name@,
    {
        MessageExpire { cluster_name }
    }

    /// One pass over the cluster's topics: each topic whose retained message
    /// has expired at `now` is saved again without it. Entries that do not
    /// decode are skipped.
    pub fn retain_message_expire(&self, store: &mut MetadataStore, now: u64)
        requires
            old(store).wf(),
        ensures
            final(store).wf(),
            final(store).map() == retain_sweep(old(store).entries(), old(store).map(), self@, now),
    {
        let ghost m0 = store.map();
        let ghost f = retain_update(self@, now);
        let found = store.scan(RecordKind::Topic, self.cluster_name.as_slice());
        let ghost fs = pairs_view(found@);
        let mut i: usize = 0;
        while i < found.len()
            invariant
                fs == pairs_view(found@),
                f == retain_update(self@, now),
                i <= found.len(),
                store.wf(),
                store.map() == apply_writes(m0, fs.take(i as int).filter_map(f)),
            decreases found.len() - i,
        {
            proof {
                reveal(Seq::filter_map);
                assert(fs.take(i as int + 1).drop_last() =~= fs.take(i as int));
                assert(fs.take(i as int + 1).last() == fs[i as int]);
            }
            let ghost w0 = fs.take(i as int).filter_map(f);
            if let Some(env) = Envelope::decode(found[i].1.as_slice()) {
                if let Some(mut topic) = Topic::decode(env.data.as_slice()) {
                    if let Some(expired_at) = topic.retain_message_expired_at {
                        if topic.retain_message.is_some() && is_retain_expired(
                            env.create_time,
                            expired_at,
                            now,
                        ) {
                            let ghost t0 = topic@;
                            topic.retain_message = None;
                            topic.retain_message_expired_at = None;
                            assert(topic@ == cleared(t0));
                            let bytes = topic.encode();
                            store.save(
                                RecordKind::Topic,
                                self.cluster_name.as_slice(),
                                topic.topic_name.as_slice(),
                                bytes,
                                now,
                            );
                            proof {
                                let w1 = fs.take(i as int + 1).filter_map(f);
                                assert(w1 == w0 + seq![f(fs[i as int])->Some_0]);
                                assert(w1.drop_last() =~= w0);
                            }
                        }
                    }
                }
            }
            i += 1;
        }
        proof {
            assert(fs.take(i as int) =~= fs);
        }
    }

    /// One pass over the cluster's last wills: each one expired at `now` is
    /// deleted. Entries that do not decode are skipped.
    pub fn last_will_message_expire(&self, store: &mut MetadataStore, now: u64)
        requires
            old(store).wf(),
        ensures
            final(store).wf(),
            final(store).map() == last_will_sweep(old(store).entries(), old(store).map(), self@, now),
    {
        let ghost m0 = store.map();
        let ghost f = last_will_removal(self@, now);
        let found = store.scan(RecordKind::LastWill, self.cluster_name.as_slice());
        let ghost fs = pairs_view(found@);
        let mut i: usize = 0;
        while i < found.len()
            invariant
                fs == pairs_view(found@),
                f == last_will_removal(self@, now),
                i <= found.len(),
                store.wf(),
                store.map() == apply_removals(m0, fs.take(i as int).filter_map(f)),
            decreases found.len() - i,
        {
            proof {
                reveal(Seq::filter_map);
                assert(fs.take(i as int + 1).drop_last() =~= fs.take(i as int));
                assert(fs.take(i as int + 1).last() == fs[i as int]);
            }
            let ghost w0 = fs.take(i as int).filter_map(f);
            if let Some(env) = Envelope::decode(found[i].1.as_slice()) {
                if let Some(will) = LastWill::decode(env.data.as_slice()) {
                    if is_last_will_expired(env.create_time, &will, now) {
                        store.delete(
                            RecordKind::LastWill,
                            self.cluster_name.as_slice(),
                            will.client_id.as_slice(),
                        );
                        proof {
                            let w1 = fs.take(i as int + 1).filter_map(f);
                            assert(w1 == w0 + seq![f(fs[i as int])->Some_0]);
                            assert(w1.drop_last() =~= w0);
                        }
                    }
                }
            }
            i += 1;
        }
        proof {
            assert(fs.take(i as int) =~= fs);
        }
    }
}

} // verus!
