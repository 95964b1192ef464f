//! Typed metadata records over the ordered store: key layout, save, get,
//! delete and prefix listings.
use vstd::prelude::*;
use crate::codec::push_all;
use crate::kv::{as_map, lemma_as_map_index, pairs_view, prefix_pred, sorted_keys, KvSeq, KvStore};
use crate::order::has_prefix;
use crate::records::{
    parse_topic, topic_bytes, Topic, TopicModel, envelope_bytes, lemma_envelope_round_trip, parse_envelope, Envelope, EnvelopeModel,
};

verus! {

/// The record families of the metadata store.
#[derive(Clone, Copy, Debug, PartialEq, Eq, Structural)]
pub enum RecordKind {
    User,
    Topic,
    Session,
    LastWill,
    Connector,
}

/// Why a read of the metadata store failed.
#[derive(Clone, Copy, Debug, PartialEq, Eq, Structural)]
pub enum StoreError {
    /// The bytes under the key are not a well-formed record.
    Decode,
    /// The record that the operation needs is absent.
    NotFound,
}

/// The key segment naming a record family: `user`, `topic`, `session`,
/// `lastwill` or `connector` in ASCII.
pub open spec fn kind_segment(k: RecordKind) -> Seq<u8> {
    match k {
        RecordKind::User => seq![117u8, 115, 101, 114],
        RecordKind::Topic => seq![116u8, 111, 112, 105, 99],
        RecordKind::Session => seq![115u8, 101, 115, 115, 105, 111, 110],
        RecordKind::LastWill => seq![108u8, 97, 115, 116, 119, 105, 108, 108],
        RecordKind::Connector => seq![99u8, 111, 110, 110, 101, 99, 116, 111, 114],
    }
}

/// `/`
pub const SLASH: u8 = 47;

/// `mqtt/`
pub open spec fn mqtt_root() -> Seq<u8> {
    seq![109u8, 113, 116, 116, 47]
}

/// `mqtt/{cluster}/{family}/`: the prefix under which a cluster's records of one family live.
pub open spec fn prefix_of(kind: RecordKind, cluster: Seq<u8>) -> Seq<u8> {
    mqtt_root() + cluster + seq![SLASH] + kind_segment(kind) + seq![SLASH]
}

/// `mqtt/{cluster}/{family}/{name}`: the key of one record.
pub open spec fn key_of(kind: RecordKind, cluster: Seq<u8>, name: Seq<u8>) -> Seq<u8> {
    prefix_of(kind, cluster) + name
}

fn push_segment(out: &mut Vec<u8>, kind: RecordKind)
    ensures
        final(out)@ == old(out)@ + kind_segment(kind),
{
    let seg: Vec<u8> = match kind {
        RecordKind::User => vec![117u8, 115, 101, 114],
        RecordKind::Topic => vec![116u8, 111, 112, 105, 99],
        RecordKind::Session => vec![115u8, 101, 115, 115, 105, 111, 110],
        RecordKind::LastWill => vec![108u8, 97, 115, 116, 119, 105, 108, 108],
        RecordKind::Connector => vec![99u8, 111, 110, 110, 101, 99, 116, 111, 114],
    };
    push_all(out, seg.as_slice());
    assert(out@ =~= old(out)@ + kind_segment(kind));
}

/// The prefix of a cluster's records of one family.
pub fn record_prefix(kind: RecordKind, cluster: &[u8]) -> (r: Vec<u8>)
    ensures
        r@ == prefix_of(kind, cluster@),
{
    let mut out: Vec<u8> = Vec::new();
    let root: Vec<u8> = vec![109u8, 113, 116, 116, 47];
    push_all(&mut out, root.as_slice());
    push_all(&mut out, cluster);
    out.push(SLASH);
    push_segment(&mut out, kind);
    out.push(SLASH);
    assert(out@ =~= prefix_of(kind, cluster@));
    out
}

/// The key of one record.
pub fn record_key(kind: RecordKind, cluster: &[u8], name: &[u8]) -> (r: Vec<u8>)
    ensures
        r@ == key_of(kind, cluster@, name@),
{
    let mut out = record_prefix(kind, cluster);
    push_all(&mut out, name);
    out
}

/// The value stored under `k`, if any.
pub open spec fn lookup(m: Map<Seq<u8>, Seq<u8>>, k: Seq<u8>) -> Option<Seq<u8>> {
    if m.contains_key(k) {
        Some(m[k])
    } else {
        None
    }
}

/// What a read of one key gives: absent, the stored envelope, or a decode error.
pub open spec fn read_result(stored: Option<Seq<u8>>) -> Result<Option<EnvelopeModel>, StoreError> {
    match stored {
        None => Ok(None),
        Some(b) => match parse_envelope(b) {
            Some(e) => Ok(Some(e)),
            None => Err(StoreError::Decode),
        },
    }
}

/// The bytes that saving `payload` at second `now` stores.
pub open spec fn saved_bytes(payload: Seq<u8>, now: u64) -> Seq<u8> {
    envelope_bytes(EnvelopeModel { create_time: now, data: payload })
}

/// The envelope held by a stored entry, if it decodes.
pub open spec fn entry_envelope() -> spec_fn((Seq<u8>, Seq<u8>)) -> Option<EnvelopeModel> {
    |e: (Seq<u8>, Seq<u8>)| parse_envelope(e.1)
}

/// The envelopes under prefix `p`, in key order, skipping entries that do not decode.
pub open spec fn list_under(s: KvSeq, p: Seq<u8>) -> Seq<EnvelopeModel> {
    s.filter(prefix_pred(p)).filter_map(entry_envelope())
}

pub open spec fn envelopes_view(v: Seq<Envelope>) -> Seq<EnvelopeModel> {
    v.map_values(|e: Envelope| e@)
}

pub open spec fn read_view(r: Result<Option<Envelope>, StoreError>) -> Result<Option<EnvelopeModel>, StoreError> {
    match r {
        Ok(Some(e)) => Ok(Some(e@)),
        Ok(None) => Ok(None),
        Err(e) => Err(e),
    }
}

pub open spec fn list_view(r: Result<Vec<Envelope>, StoreError>) -> Result<Seq<EnvelopeModel>, StoreError> {
    match r {
        Ok(v) => Ok(envelopes_view(v@)),
        Err(e) => Err(e),
    }
}

/// What listing one named record gives: that record alone, nothing, or the decode error.
pub open spec fn list_one(r: Result<Option<EnvelopeModel>, StoreError>) -> Result<Seq<EnvelopeModel>, StoreError> {
    match r {
        Ok(Some(e)) => Ok(seq![e]),
        Ok(None) => Ok(Seq::empty()),
        Err(e) => Err(e),
    }
}

/// The metadata store: every record family of every cluster over one ordered store.
pub struct MetadataStore {
    kv: KvStore,
}

impl MetadataStore {
    /// The stored entries, in key order.
    pub closed spec fn entries(&self) -> KvSeq {
        self.kv@
    }

    pub open spec fn wf(&self) -> bool {
        sorted_keys(self.entries())
    }

    /// The stored bytes by key.
    pub open spec fn map(&self) -> Map<Seq<u8>, Seq<u8>> {
        as_map(self.entries())
    }

    pub fn new() -> (r: MetadataStore)
        ensures
            r.wf(),
            r.entries().len() == 0,
            r.map() == Map::<Seq<u8>, Seq<u8>>::empty(),
    {
        MetadataStore { kv: KvStore::new() }
    }

    /// Wraps `payload` in an envelope stamped `now` and stores it under the record's key.
    pub fn save(
        &mut self,
        kind: RecordKind,
        cluster: &[u8],
        name: &[u8],
        payload: Vec<u8>,
        now: u64,
    )
        requires
            old(self).wf(),
        ensures
            final(self).wf(),
            final(self).map() == old(self).map().insert(
                key_of(kind, cluster@, name@),
                saved_bytes(payload@, now),
            ),
    {
        let key = record_key(kind, cluster, name);
        let env = Envelope { create_time: now, data: payload };
        let bytes = env.encode();
        self.kv.put(key, bytes);
    }

    /// The envelope stored under the record's key.
    pub fn get(&self, kind: RecordKind, cluster: &[u8], name: &[u8]) -> (r: Result<
        Option<Envelope>,
        StoreError,
    >)
        requires
            self.wf(),
        ensures
            read_view(r) == read_result(lookup(self.map(), key_of(kind, cluster@, name@))),
    {
        let key = record_key(kind, cluster, name);
        match self.kv.get(key.as_slice()) {
            None => Ok(None),
            Some(b) => match Envelope::decode(b.as_slice()) {
                Some(e) => Ok(Some(e)),
                None => Err(StoreError::Decode),
            },
        }
    }

    /// Removes the record; removing an absent record changes nothing.
    pub fn delete(&mut self, kind: RecordKind, cluster: &[u8], name: &[u8])
        requires
            old(self).wf(),
        ensures
            final(self).wf(),
            final(self).map() == old(self).map().remove(key_of(kind, cluster@, name@)),
    {
        let key = record_key(kind, cluster, name);
        self.kv.delete(key.as_slice());
    }

    /// Gives a stored topic a retained message with lifetime `expired_at`
    /// and saves it again, stamped `now`.
    pub fn set_topic_retain_message(
        &mut self,
        cluster: &[u8],
        topic_name: &[u8],
        msg: Vec<u8>,
        expired_at: u64,
        now: u64,
    ) -> (r: Result<(), StoreError>)
        requires
            old(self).wf(),
        ensures
            final(self).wf(),
            match retain_set(old(self).map(), cluster@, topic_name@, msg@, expired_at, now) {
                Ok(m) => r is Ok && final(self).map() == m,
                Err(e) => r == Err::<(), StoreError>(e) && final(self).map() == old(self).map(),
            },
    {
        let env = match self.get(RecordKind::Topic, cluster, topic_name) {
            Ok(Some(env)) => env,
            Ok(None) => return Err(StoreError::NotFound),
            Err(e) => return Err(e),
        };
        let mut topic = match Topic::decode(env.data.as_slice()) {
            Some(t) => t,
            None => return Err(StoreError::Decode),
        };
        let ghost t0 = topic@;
        topic.retain_message = Some(msg);
        topic.retain_message_expired_at = Some(expired_at);
        assert(topic@ == with_retain(t0, msg@, expired_at));
        let bytes = topic.encode();
        self.save(RecordKind::Topic, cluster, topic_name, bytes, now);
        Ok(())
    }

    /// The raw entries of a cluster's records of one family, in key order.
    pub fn scan(&self, kind: RecordKind, cluster: &[u8]) -> (r: Vec<(Vec<u8>, Vec<u8>)>)
        requires
            self.wf(),
        ensures
            pairs_view(r@) == self.entries().filter(prefix_pred(prefix_of(kind, cluster@))),
    {
        let prefix = record_prefix(kind, cluster);
        self.kv.scan_prefix(prefix.as_slice())
    }

    /// With a name, that record alone (or nothing); without, every record of the
    /// family in the cluster, in key order, skipping entries that do not decode.
    pub fn list(&self, kind: RecordKind, cluster: &[u8], name: Option<&[u8]>) -> (r: Result<
        Vec<Envelope>,
        StoreError,
    >)
        requires
            self.wf(),
        ensures
            match name {
                Some(n) => list_view(r) == list_one(
                    read_result(lookup(self.map(), key_of(kind, cluster@, n@))),
                ),
                None => list_view(r) == Ok::<Seq<EnvelopeModel>, StoreError>(
                    list_under(self.entries(), prefix_of(kind, cluster@)),
                ),
            },
    {
        match name {
            Some(n) => match self.get(kind, cluster, n) {
                Ok(Some(e)) => {
                    let mut v: Vec<Envelope> = Vec::new();
                    v.push(e);
                    proof {
                        assert(envelopes_view(v@) =~= seq![v@[0]@]);
                    }
                    Ok(v)
                },
                Ok(None) => {
                    let v: Vec<Envelope> = Vec::new();
                    proof {
                        assert(envelopes_view(v@) =~= Seq::<EnvelopeModel>::empty());
                    }
                    Ok(v)
                },
                Err(e) => Err(e),
            },
            None => {
                let prefix = record_prefix(kind, cluster);
                let found = self.kv.scan_prefix(prefix.as_slice());
                let ghost fs = pairs_view(found@);
                let mut out: Vec<Envelope> = Vec::new();
                let mut i: usize = 0;
                while i < found.len()
                    invariant
                        fs == pairs_view(found@),
                        i <= found.len(),
                        envelopes_view(out@) == fs.take(i as int).filter_map(entry_envelope()),
                    decreases found.len() - i,
                {
                    proof {
                        reveal(Seq::filter_map);
                        assert(fs.take(i as int + 1).drop_last() =~= fs.take(i as int));
                        assert(fs.take(i as int + 1).last() == fs[i as int]);
                    }
                    let ghost out0 = out@;
                    match Envelope::decode(found[i].1.as_slice()) {
                        Some(e) => {
                            out.push(e);
                            proof {
                                assert(envelopes_view(out@) =~= envelopes_view(out0) + seq![
                                    out@[out@.len() - 1]@,
                                ]);
                            }
                        },
                        None => {},
                    }
                    i += 1;
                }
                proof {
                    assert(fs.take(i as int) =~= fs);
                }
                Ok(out)
            },
        }
    }
}

/// A topic given a retained message with lifetime `expired_at`.
pub open spec fn with_retain(t: TopicModel, msg: Seq<u8>, expired_at: u64) -> TopicModel {
    TopicModel { retain_message: Some(msg), retain_message_expired_at: Some(expired_at), ..t }
}

/// What setting a topic's retained message does to the store map, or the error it gives.
pub open spec fn retain_set(
    m: Map<Seq<u8>, Seq<u8>>,
    cluster: Seq<u8>,
    name: Seq<u8>,
    msg: Seq<u8>,
    expired_at: u64,
    now: u64,
) -> Result<Map<Seq<u8>, Seq<u8>>, StoreError> {
    let k = key_of(RecordKind::Topic, cluster, name);
    match read_result(lookup(m, k)) {
        Ok(Some(env)) => match parse_topic(env.data) {
            Some(t) => Ok(m.insert(k, saved_bytes(topic_bytes(with_retain(t, msg, expired_at)), now))),
            None => Err(StoreError::Decode),
        },
        Ok(None) => Err(StoreError::NotFound),
        Err(e) => Err(e),
    }
}

/// Saving twice under one key and then reading it gives the second save.
pub proof fn law_save_save_get(
    m: Map<Seq<u8>, Seq<u8>>,
    kind: RecordKind,
    cluster: Seq<u8>,
    name: Seq<u8>,
    v1: Seq<u8>,
    t1: u64,
    v2: Seq<u8>,
    t2: u64,
)
    requires
        v2.len() <= u64::MAX,
    ensures
        ({
            let k = key_of(kind, cluster, name);
            read_result(lookup(m.insert(k, saved_bytes(v1, t1)).insert(k, saved_bytes(v2, t2)), k))
                == Ok::<Option<EnvelopeModel>, StoreError>(
                Some(EnvelopeModel { create_time: t2, data: v2 }),
            )
        }),
{
    lemma_envelope_round_trip(EnvelopeModel { create_time: t2, data: v2 });
}

/// After a delete the record reads as absent, and a second delete changes nothing more.
pub proof fn law_delete(m: Map<Seq<u8>, Seq<u8>>, kind: RecordKind, cluster: Seq<u8>, name: Seq<u8>)
    ensures
        ({
            let k = key_of(kind, cluster, name);
            &&& read_result(lookup(m.remove(k), k)) == Ok::<Option<EnvelopeModel>, StoreError>(None)
            &&& m.remove(k).remove(k) == m.remove(k)
        }),
{
    let k = key_of(kind, cluster, name);
    assert(m.remove(k).remove(k) =~= m.remove(k));
}

proof fn lemma_filter_map_has<A, B>(s: Seq<A>, f: spec_fn(A) -> Option<B>, i: int)
    requires
        0 <= i < s.len(),
        f(s[i]) is Some,
    ensures
        s.filter_map(f).contains(f(s[i])->Some_0),
    decreases s.len(),
{
    reveal(Seq::filter_map);
    let rest = s.drop_last();
    if i == s.len() - 1 {
        let r = rest.filter_map(f) + seq![f(s[i])->Some_0];
        assert(r[r.len() - 1] == f(s[i])->Some_0);
    } else {
        lemma_filter_map_has(rest, f, i);
        let j = choose|j: int| 0 <= j < rest.filter_map(f).len() && rest.filter_map(f)[j] == f(s[i])->Some_0;
        match f(s.last()) {
            Some(b) => {
                assert((rest.filter_map(f) + seq![b])[j] == f(s[i])->Some_0);
            },
            None => {},
        }
    }
}

/// Listing a family without a name gives exactly the envelopes stored under
/// keys with the family's prefix that decode.
pub proof fn law_list_exact(s: KvSeq, p: Seq<u8>, e: EnvelopeModel)
    requires
        sorted_keys(s),
    ensures
        list_under(s, p).contains(e) <==> exists|k: Seq<u8>|
            as_map(s).contains_key(k) && has_prefix(k, p) && parse_envelope(as_map(s)[k]) == Some(e),
{
    let pred = prefix_pred(p);
    let fs = s.filter(pred);
    if list_under(s, p).contains(e) {
        fs.lemma_filter_map_contains(entry_envelope(), e);
        let t = choose|t: (Seq<u8>, Seq<u8>)| #[trigger] fs.contains(t) && entry_envelope()(t) == Some(e);
        s.lemma_filter_contains_rev(pred, t);
        #[allow(deprecated)]
        s.filter_lemma(pred);
        let i = choose|i: int| 0 <= i < fs.len() && fs[i] == t;
        assert(pred(fs[i]));
        let j = choose|j: int| 0 <= j < s.len() && s[j] == t;
        lemma_as_map_index(s, j);
        assert(as_map(s).contains_key(t.0) && has_prefix(t.0, p) && parse_envelope(as_map(s)[t.0]) == Some(e));
    }
    if exists|k: Seq<u8>|
        as_map(s).contains_key(k) && has_prefix(k, p) && parse_envelope(as_map(s)[k]) == Some(e) {
        let k = choose|k: Seq<u8>|
            as_map(s).contains_key(k) && has_prefix(k, p) && parse_envelope(as_map(s)[k]) == Some(e);
        let j = choose|j: int| 0 <= j < s.len() && s[j].0 == k;
        lemma_as_map_index(s, j);
        assert(pred(s[j]));
        s.lemma_filter_contains(pred, j);
        let i = choose|i: int| 0 <= i < fs.len() && fs[i] == s[j];
        lemma_filter_map_has(fs, entry_envelope(), i);
    }
}

/// Within one cluster, a record's key never carries another family's prefix,
/// so a family's listing holds only that family.
pub proof fn law_families_disjoint(a: RecordKind, b: RecordKind, cluster: Seq<u8>, name: Seq<u8>)
    requires
        a != b,
    ensures
        !has_prefix(key_of(a, cluster, name), prefix_of(b, cluster)),
{
    let k = key_of(a, cluster, name);
    let p = prefix_of(b, cluster);
    let i: int = 6 + cluster.len() as int;
    assert(k[i] == kind_segment(a)[0]);
    assert(p[i] == kind_segment(b)[0]);
    if has_prefix(k, p) {
        assert(k.subrange(0, p.len() as int)[i] == k[i]);
    }
}

} // verus!
