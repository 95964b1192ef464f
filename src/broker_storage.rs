//! The broker's own key/value records: retained messages by topic id, last
//! wills by client id, and topics by name.
use vstd::prelude::*;
use crate::codec::push_all;
use crate::kv::{as_map, pairs_view, prefix_pred, sorted_keys, KvSeq, KvStore};
use crate::records::{
    last_will_bytes, parse_last_will, parse_topic, topic_bytes, LastWill, LastWillModel, Topic,
    TopicModel,
};
use crate::store::{lookup, StoreError};

verus! {

/// `retain_message/`
pub open spec fn retain_root() -> Seq<u8> {
    seq![114u8, 101, 116, 97, 105, 110, 95, 109, 101, 115, 115, 97, 103, 101, 47]
}

/// `lastwill/`
pub open spec fn lastwill_root() -> Seq<u8> {
    seq![108u8, 97, 115, 116, 119, 105, 108, 108, 47]
}

/// `topic/`
pub open spec fn topic_root() -> Seq<u8> {
    seq![116u8, 111, 112, 105, 99, 47]
}

fn key_under(root: Vec<u8>, id: &[u8]) -> (r: Vec<u8>)
    ensures
        r@ == root@ + id@,
{
    let mut out = root;
    push_all(&mut out, id);
    out
}

/// A decoded read: absent, the value, or a decode error.
pub open spec fn decoded<T>(stored: Option<Seq<u8>>, parse: spec_fn(Seq<u8>) -> Option<T>) -> Result<
    Option<T>,
    StoreError,
> {
    match stored {
        None => Ok(None),
        Some(b) => match parse(b) {
            Some(v) => Ok(Some(v)),
            None => Err(StoreError::Decode),
        },
    }
}

pub open spec fn parse_last_will_fn() -> spec_fn(Seq<u8>) -> Option<LastWillModel> {
    |b: Seq<u8>| parse_last_will(b)
}

pub open spec fn parse_topic_fn() -> spec_fn(Seq<u8>) -> Option<TopicModel> {
    |b: Seq<u8>| parse_topic(b)
}

/// Retained messages and last wills of the broker.
pub struct MessageStorage {
    adapter: KvStore,
}

impl MessageStorage {
    pub closed spec fn entries(&self) -> KvSeq {
        self.adapter@
    }

    pub open spec fn wf(&self) -> bool {
        sorted_keys(self.entries())
    }

    pub open spec fn map(&self) -> Map<Seq<u8>, Seq<u8>> {
        as_map(self.entries())
    }

    pub fn new(storage_adapter: KvStore) -> (r: MessageStorage)
        ensures
            r.entries() == storage_adapter@,
    {
        MessageStorage { adapter: storage_adapter }
    }

    /// Keeps `retain_message` as the latest retained message of the topic.
    pub fn save_retain_message(&mut self, topic_id: &[u8], retain_message: Vec<u8>)
        requires
            old(self).wf(),
        ensures
            final(self).wf(),
            final(self).map() == old(self).map().insert(retain_root() + topic_id@, retain_message@),
    {
        let key = key_under(vec![114u8, 101, 116, 97, 105, 110, 95, 109, 101, 115, 115, 97, 103, 101, 47], topic_id);
        self.adapter.put(key, retain_message);
    }

    /// The latest retained message of the topic.
    pub fn get_retain_message(&self, topic_id: &[u8]) -> (r: Option<Vec<u8>>)
        requires
            self.wf(),
        ensures
            match lookup(self.map(), retain_root() + topic_id@) {
                Some(b) => r is Some && r->Some_0@ == b,
                None => r is None,
            },
    {
        let key = key_under(vec![114u8, 101, 116, 97, 105, 110, 95, 109, 101, 115, 115, 97, 103, 101, 47], topic_id);
        self.adapter.get(key.as_slice())
    }

    /// Keeps the client's last will.
    pub fn save_lastwill(&mut self, client_id: &[u8], last_will_data: &LastWill)
        requires
            old(self).wf(),
        ensures
            final(self).wf(),
            final(self).map() == old(self).map().insert(
                lastwill_root() + client_id@,
                last_will_bytes(last_will_data@),
            ),
    {
        let key = key_under(vec![108u8, 97, 115, 116, 119, 105, 108, 108, 47], client_id);
        self.adapter.put(key, last_will_data.encode());
    }

    /// The client's last will.
    pub fn get_lastwill(&self, client_id: &[u8]) -> (r: Result<Option<LastWill>, StoreError>)
        requires
            self.wf(),
        ensures
            match decoded(lookup(self.map(), lastwill_root() + client_id@), parse_last_will_fn()) {
                Ok(Some(w)) => r is Ok && r->Ok_0 is Some && r->Ok_0->Some_0@ == w,
                Ok(None) => r is Ok && r->Ok_0 is None,
                Err(e) => r == Err::<Option<LastWill>, StoreError>(e),
            },
    {
        let key = key_under(vec![108u8, 97, 115, 116, 119, 105, 108, 108, 47], client_id);
        match self.adapter.get(key.as_slice()) {
            None => Ok(None),
            Some(b) => match LastWill::decode(b.as_slice()) {
                Some(w) => Ok(Some(w)),
                None => Err(StoreError::Decode),
            },
        }
    }
}

/// Views of a sequence of topics.
pub open spec fn topics_view(v: Seq<Topic>) -> Seq<TopicModel> {
    v.map_values(|t: Topic| t@)
}

/// What listing every topic gives: the topics in key order, or a decode error
/// if any stored topic does not decode.
pub open spec fn all_topics(s: KvSeq) -> Result<Seq<TopicModel>, StoreError>
    decreases s.len(),
{
    if s.len() == 0 {
        Ok(Seq::empty())
    } else {
        match all_topics(s.drop_last()) {
            Ok(ts) => match parse_topic(s.last().1) {
                Some(t) => Ok(ts.push(t)),
                None => Err(StoreError::Decode),
            },
            Err(e) => Err(e),
        }
    }
}

/// The broker's topics by name.
pub struct TopicStorage {
    adapter: KvStore,
}

impl TopicStorage {
    pub closed spec fn entries(&self) -> KvSeq {
        self.adapter@
    }

    pub open spec fn wf(&self) -> bool {
        sorted_keys(self.entries())
    }

    pub open spec fn map(&self) -> Map<Seq<u8>, Seq<u8>> {
        as_map(self.entries())
    }

    pub fn new(storage_adapter: KvStore) -> (r: TopicStorage)
        ensures
            r.entries() == storage_adapter@,
    {
        TopicStorage { adapter: storage_adapter }
    }

    /// Keeps `topic` under its name.
    pub fn save_topic(&mut self, topic_name: &[u8], topic: &Topic)
        requires
            old(self).wf(),
        ensures
            final(self).wf(),
            final(self).map() == old(self).map().insert(topic_root() + topic_name@, topic_bytes(topic@)),
    {
        let key = key_under(vec![116u8, 111, 112, 105, 99, 47], topic_name);
        self.adapter.put(key, topic.encode());
    }

    /// The topic stored under `topic_name`.
    pub fn get_topic(&self, topic_name: &[u8]) -> (r: Result<Option<Topic>, StoreError>)
        requires
            self.wf(),
        ensures
            match decoded(lookup(self.map(), topic_root() + topic_name@), parse_topic_fn()) {
                Ok(Some(t)) => r is Ok && r->Ok_0 is Some && r->Ok_0->Some_0@ == t,
                Ok(None) => r is Ok && r->Ok_0 is None,
                Err(e) => r == Err::<Option<Topic>, StoreError>(e),
            },
    {
        let key = key_under(vec![116u8, 111, 112, 105, 99, 47], topic_name);
        match self.adapter.get(key.as_slice()) {
            None => Ok(None),
            Some(b) => match Topic::decode(b.as_slice()) {
                Some(t) => Ok(Some(t)),
                None => Err(StoreError::Decode),
            },
        }
    }

    /// Every stored topic, in key order; a topic that does not decode fails the listing.
    pub fn topic_list(&self) -> (r: Result<Vec<Topic>, StoreError>)
        requires
            self.wf(),
        ensures
            match all_topics(self.entries().filter(prefix_pred(topic_root()))) {
                Ok(ts) => r is Ok && topics_view(r->Ok_0@) == ts,
                Err(e) => r == Err::<Vec<Topic>, StoreError>(e),
            },
    {
        let root: Vec<u8> = vec![116u8, 111, 112, 105, 99, 47];
        assert(root@ =~= topic_root());
        let found = self.adapter.scan_prefix(root.as_slice());
        let ghost fs = pairs_view(found@);
        let mut out: Vec<Topic> = Vec::new();
        let mut i: usize = 0;
        proof {
            assert(fs.take(0) =~= Seq::<(Seq<u8>, Seq<u8>)>::empty());
            assert(topics_view(out@) =~= Seq::<TopicModel>::empty());
        }
        while i < found.len()
            invariant
                i <= found.len(),
                fs == pairs_view(found@),
                fs == self.entries().filter(prefix_pred(topic_root())),
                all_topics(fs.take(i as int)) == Ok::<Seq<TopicModel>, StoreError>(topics_view(out@)),
            decreases found.len() - i,
        {
            proof {
                assert(fs.take(i as int + 1).drop_last() =~= fs.take(i as int));
                assert(fs.take(i as int + 1).last() == fs[i as int]);
            }
            match Topic::decode(found[i].1.as_slice()) {
                Some(t) => {
                    let ghost o0 = topics_view(out@);
                    out.push(t);
                    proof {
                        assert(topics_view(out@) =~= o0.push(out@[out@.len() - 1]@));
                    }
                },
                None => {
                    proof {
                        assert(fs[i as int].1 == found@[i as int].1@);
                        assert(parse_topic(fs[i as int].1) is None);
                        assert(all_topics(fs.take(i as int + 1)) == Err::<Seq<TopicModel>, StoreError>(
                            StoreError::Decode,
                        ));
                        lemma_all_topics_error_sticks(fs, i as int + 1);
                    }
                    return Err(StoreError::Decode);
                },
            }
            i += 1;
        }
        proof {
            assert(fs.take(i as int) =~= fs);
        }
        Ok(out)
    }
}

/// Once a prefix of the entries fails to list, every longer prefix fails the same way.
proof fn lemma_all_topics_error_sticks(s: KvSeq, n: int)
    requires
        0 < n <= s.len(),
        all_topics(s.take(n)) == Err::<Seq<TopicModel>, StoreError>(StoreError::Decode),
    ensures
        all_topics(s) == Err::<Seq<TopicModel>, StoreError>(StoreError::Decode),
    decreases s.len() - n,
{
    if n < s.len() {
        assert(s.take(n + 1).drop_last() =~= s.take(n));
        lemma_all_topics_error_sticks(s, n + 1);
    } else {
        assert(s.take(n) =~= s);
    }
}

} // verus!
