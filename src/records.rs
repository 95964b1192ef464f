//! The records kept in the metadata store and their byte encodings.
use vstd::prelude::*;
use crate::codec::{
    be_bytes, enc_bytes, enc_flag, enc_opt_bytes, enc_opt_u32, enc_opt_u64, lemma_bytes_round_trip,
    lemma_flag_round_trip, lemma_opt_bytes_round_trip, lemma_opt_u32_round_trip,
    lemma_opt_u64_round_trip, lemma_u64_round_trip, opt_view, parse_bytes, parse_flag,
    parse_opt_bytes, parse_opt_u32, parse_opt_u64, parse_u64, put_bytes, put_flag, put_opt_bytes,
    put_opt_u32, put_opt_u64, put_u64, read_bytes, read_flag, read_opt_bytes, read_opt_u32,
    read_opt_u64, read_u64,
};

verus! {

/// The stored form of every record: its payload and the second it was written.
pub struct Envelope {
    /// Epoch second at which the record was saved.
    pub create_time: u64,
    /// The record's encoded payload.
    pub data: Vec<u8>,
}

/// The value of an [`Envelope`].
pub struct EnvelopeModel {
    pub create_time: u64,
    pub data: Seq<u8>,
}

impl View for Envelope {
    type V = EnvelopeModel;

    open spec fn view(&self) -> EnvelopeModel {
        EnvelopeModel {
            create_time: self.create_time,
            data: self.data@,
        }
    }
}

/// The encoded form of an envelope.
pub open spec fn envelope_bytes(m: EnvelopeModel) -> Seq<u8> {
    be_bytes(m.create_time) + (enc_bytes(m.data))
}

/// Reads a whole envelope; trailing bytes are refused.
pub open spec fn parse_envelope(s: Seq<u8>) -> Option<EnvelopeModel> {
    match parse_u64(s) {
        Some((create_time, s1)) => match parse_bytes(s1) {
            Some((data, s2)) => if s2.len() == 0 {
                Some(EnvelopeModel { create_time, data })
            } else {
                None
            },
            None => None,
        },
        None => None,
    }
}

/// Decoding an encoded envelope gives it back.
pub proof fn lemma_envelope_round_trip(m: EnvelopeModel)
    requires
        m.data.len() <= u64::MAX,
    ensures
        parse_envelope(envelope_bytes(m)) == Some(m),
{
    lemma_u64_round_trip(m.create_time, enc_bytes(m.data));
    assert(enc_bytes(m.data) + Seq::<u8>::empty() =~= enc_bytes(m.data));
    lemma_bytes_round_trip(m.data, Seq::<u8>::empty());
    assert(parse_envelope(envelope_bytes(m)) =~= Some(m));
}

impl Envelope {
    /// Encodes the envelope.
    pub fn encode(&self) -> (r: Vec<u8>)
        ensures
            r@ == envelope_bytes(self@),
    {
        let mut out: Vec<u8> = Vec::new();
        put_u64(&mut out, self.create_time);
        put_bytes(&mut out, self.data.as_slice());
        assert(out@ =~= envelope_bytes(self@));
        out
    }

    /// Decodes an envelope; `None` on malformed bytes.
    pub fn decode(buf: &[u8]) -> (r: Option<Envelope>)
        ensures
            match parse_envelope(buf@) {
                Some(m) => r is Some && r->Some_0@ == m,
                None => r is None,
            },
    {
        proof {
            assert(buf@.skip(0) =~= buf@);
        }
        let (create_time, pos1) = match read_u64(buf, 0) {
            Some(x) => x,
            None => return None,
        };
        let (data, pos2) = match read_bytes(buf, pos1) {
            Some(x) => x,
            None => return None,
        };
        if pos2 != buf.len() {
            return None;
        }
        let r = Envelope { create_time, data };
        proof {
            assert(buf@.skip(pos2 as int).len() == 0);
        }
        Some(r)
    }
}

/// A topic, with its retained message if any.
pub struct Topic {
    /// Stable unique identifier.
    pub topic_id: Vec<u8>,
    /// The topic's name.
    pub topic_name: Vec<u8>,
    /// Encoded retained message.
    pub retain_message: Option<Vec<u8>>,
    /// Seconds after the record's create time at which the retained message expires.
    pub retain_message_expired_at: Option<u64>,
}

/// The value of a [`Topic`].
pub struct TopicModel {
    pub topic_id: Seq<u8>,
    pub topic_name: Seq<u8>,
    pub retain_message: Option<Seq<u8>>,
    pub retain_message_expired_at: Option<u64>,
}

impl View for Topic {
    type V = TopicModel;

    open spec fn view(&self) -> TopicModel {
        TopicModel {
            topic_id: self.topic_id@,
            topic_name: self.topic_name@,
            retain_message: opt_view(self.retain_message),
            retain_message_expired_at: self.retain_message_expired_at,
        }
    }
}

/// The encoded form of a topic.
pub open spec fn topic_bytes(m: TopicModel) -> Seq<u8> {
    enc_bytes(m.topic_id) + (enc_bytes(m.topic_name) + (enc_opt_bytes(m.retain_message) + (enc_opt_u64(m.retain_message_expired_at))))
}

/// Reads a whole topic; trailing bytes are refused.
pub open spec fn parse_topic(s: Seq<u8>) -> Option<TopicModel> {
    match parse_bytes(s) {
        Some((topic_id, s1)) => match parse_bytes(s1) {
            Some((topic_name, s2)) => match parse_opt_bytes(s2) {
                Some((retain_message, s3)) => match parse_opt_u64(s3) {
                    Some((retain_message_expired_at, s4)) => if s4.len() == 0 {
                        Some(TopicModel { topic_id, topic_name, retain_message, retain_message_expired_at })
                    } else {
                        None
                    },
                    None => None,
                },
                None => None,
            },
            None => None,
        },
        None => None,
    }
}

/// Decoding an encoded topic gives it back.
pub proof fn lemma_topic_round_trip(m: TopicModel)
    requires
        m.topic_id.len() <= u64::MAX,
        m.topic_name.len() <= u64::MAX,
        m.retain_message is Some ==> m.retain_message->Some_0.len() <= u64::MAX,
    ensures
        parse_topic(topic_bytes(m)) == Some(m),
{
    lemma_bytes_round_trip(m.topic_id, enc_bytes(m.topic_name) + (enc_opt_bytes(m.retain_message) + (enc_opt_u64(m.retain_message_expired_at))));
    lemma_bytes_round_trip(m.topic_name, enc_opt_bytes(m.retain_message) + (enc_opt_u64(m.retain_message_expired_at)));
    lemma_opt_bytes_round_trip(m.retain_message, enc_opt_u64(m.retain_message_expired_at));
    assert(enc_opt_u64(m.retain_message_expired_at) + Seq::<u8>::empty() =~= enc_opt_u64(m.retain_message_expired_at));
    lemma_opt_u64_round_trip(m.retain_message_expired_at, Seq::<u8>::empty());
    assert(parse_topic(topic_bytes(m)) =~= Some(m));
}

impl Topic {
    /// Encodes the topic.
    pub fn encode(&self) -> (r: Vec<u8>)
        ensures
            r@ == topic_bytes(self@),
    {
        let mut out: Vec<u8> = Vec::new();
        put_bytes(&mut out, self.topic_id.as_slice());
        put_bytes(&mut out, self.topic_name.as_slice());
        put_opt_bytes(&mut out, &self.retain_message);
        put_opt_u64(&mut out, self.retain_message_expired_at);
        assert(out@ =~= topic_bytes(self@));
        out
    }

    /// Decodes a topic; `None` on malformed bytes.
    pub fn decode(buf: &[u8]) -> (r: Option<Topic>)
        ensures
            match parse_topic(buf@) {
                Some(m) => r is Some && r->Some_0@ == m,
                None => r is None,
            },
    {
        proof {
            assert(buf@.skip(0) =~= buf@);
        }
        let (topic_id, pos1) = match read_bytes(buf, 0) {
            Some(x) => x,
            None => return None,
        };
        let (topic_name, pos2) = match read_bytes(buf, pos1) {
            Some(x) => x,
            None => return None,
        };
        let (retain_message, pos3) = match read_opt_bytes(buf, pos2) {
            Some(x) => x,
            None => return None,
        };
        let (retain_message_expired_at, pos4) = match read_opt_u64(buf, pos3) {
            Some(x) => x,
            None => return None,
        };
        if pos4 != buf.len() {
            return None;
        }
        let r = Topic { topic_id, topic_name, retain_message, retain_message_expired_at };
        proof {
            assert(buf@.skip(pos4 as int).len() == 0);
        }
        Some(r)
    }
}

/// A user of a cluster.
pub struct User {
    /// Login name.
    pub username: Vec<u8>,
    /// Password hash.
    pub password: Vec<u8>,
    /// Whether the user is a superuser.
    pub is_superuser: bool,
}

/// The value of an [`User`].
pub struct UserModel {
    pub username: Seq<u8>,
    pub password: Seq<u8>,
    pub is_superuser: bool,
}

impl View for User {
    type V = UserModel;

    open spec fn view(&self) -> UserModel {
        UserModel {
            username: self.username@,
            password: self.password@,
            is_superuser: self.is_superuser,
        }
    }
}

/// The encoded form of an user.
pub open spec fn user_bytes(m: UserModel) -> Seq<u8> {
    enc_bytes(m.username) + (enc_bytes(m.password) + (enc_flag(m.is_superuser)))
}

/// Reads a whole user; trailing bytes are refused.
pub open spec fn parse_user(s: Seq<u8>) -> Option<UserModel> {
    match parse_bytes(s) {
        Some((username, s1)) => match parse_bytes(s1) {
            Some((password, s2)) => match parse_flag(s2) {
                Some((is_superuser, s3)) => if s3.len() == 0 {
                    Some(UserModel { username, password, is_superuser })
                } else {
                    None
                },
                None => None,
            },
            None => None,
        },
        None => None,
    }
}

/// Decoding an encoded user gives it back.
pub proof fn lemma_user_round_trip(m: UserModel)
    requires
        m.username.len() <= u64::MAX,
        m.password.len() <= u64::MAX,
    ensures
        parse_user(user_bytes(m)) == Some(m),
{
    lemma_bytes_round_trip(m.username, enc_bytes(m.password) + (enc_flag(m.is_superuser)));
    lemma_bytes_round_trip(m.password, enc_flag(m.is_superuser));
    assert(enc_flag(m.is_superuser) + Seq::<u8>::empty() =~= enc_flag(m.is_superuser));
    lemma_flag_round_trip(m.is_superuser, Seq::<u8>::empty());
    assert(parse_user(user_bytes(m)) =~= Some(m));
}

impl User {
    /// Encodes the user.
    pub fn encode(&self) -> (r: Vec<u8>)
        ensures
            r@ == user_bytes(self@),
    {
        let mut out: Vec<u8> = Vec::new();
        put_bytes(&mut out, self.username.as_slice());
        put_bytes(&mut out, self.password.as_slice());
        put_flag(&mut out, self.is_superuser);
        assert(out@ =~= user_bytes(self@));
        out
    }

    /// Decodes an user; `None` on malformed bytes.
    pub fn decode(buf: &[u8]) -> (r: Option<User>)
        ensures
            match parse_user(buf@) {
                Some(m) => r is Some && r->Some_0@ == m,
                None => r is None,
            },
    {
        proof {
            assert(buf@.skip(0) =~= buf@);
        }
        let (username, pos1) = match read_bytes(buf, 0) {
            Some(x) => x,
            None => return None,
        };
        let (password, pos2) = match read_bytes(buf, pos1) {
            Some(x) => x,
            None => return None,
        };
        let (is_superuser, pos3) = match read_flag(buf, pos2) {
            Some(x) => x,
            None => return None,
        };
        if pos3 != buf.len() {
            return None;
        }
        let r = User { username, password, is_superuser };
        proof {
            assert(buf@.skip(pos3 as int).len() == 0);
        }
        Some(r)
    }
}

/// A client session.
pub struct Session {
    /// The client identifier.
    pub client_id: Vec<u8>,
    /// Broker holding the session.
    pub broker_id: u64,
    /// Session expiry interval, seconds.
    pub session_expiry: u64,
    /// Delay before the last will is sent, seconds.
    pub last_will_delay_interval: Option<u64>,
}

/// The value of a [`Session`].
pub struct SessionModel {
    pub client_id: Seq<u8>,
    pub broker_id: u64,
    pub session_expiry: u64,
    pub last_will_delay_interval: Option<u64>,
}

impl View for Session {
    type V = SessionModel;

    open spec fn view(&self) -> SessionModel {
        SessionModel {
            client_id: self.client_id@,
            broker_id: self.broker_id,
            session_expiry: self.session_expiry,
            last_will_delay_interval: self.last_will_delay_interval,
        }
    }
}

/// The encoded form of a session.
pub open spec fn session_bytes(m: SessionModel) -> Seq<u8> {
    enc_bytes(m.client_id) + (be_bytes(m.broker_id) + (be_bytes(m.session_expiry) + (enc_opt_u64(m.last_will_delay_interval))))
}

/// Reads a whole session; trailing bytes are refused.
pub open spec fn parse_session(s: Seq<u8>) -> Option<SessionModel> {
    match parse_bytes(s) {
        Some((client_id, s1)) => match parse_u64(s1) {
            Some((broker_id, s2)) => match parse_u64(s2) {
                Some((session_expiry, s3)) => match parse_opt_u64(s3) {
                    Some((last_will_delay_interval, s4)) => if s4.len() == 0 {
                        Some(SessionModel { client_id, broker_id, session_expiry, last_will_delay_interval })
                    } else {
                        None
                    },
                    None => None,
                },
                None => None,
            },
            None => None,
        },
        None => None,
    }
}

/// Decoding an encoded session gives it back.
pub proof fn lemma_session_round_trip(m: SessionModel)
    requires
        m.client_id.len() <= u64::MAX,
    ensures
        parse_session(session_bytes(m)) == Some(m),
{
    lemma_bytes_round_trip(m.client_id, be_bytes(m.broker_id) + (be_bytes(m.session_expiry) + (enc_opt_u64(m.last_will_delay_interval))));
    lemma_u64_round_trip(m.broker_id, be_bytes(m.session_expiry) + (enc_opt_u64(m.last_will_delay_interval)));
    lemma_u64_round_trip(m.session_expiry, enc_opt_u64(m.last_will_delay_interval));
    assert(enc_opt_u64(m.last_will_delay_interval) + Seq::<u8>::empty() =~= enc_opt_u64(m.last_will_delay_interval));
    lemma_opt_u64_round_trip(m.last_will_delay_interval, Seq::<u8>::empty());
    assert(parse_session(session_bytes(m)) =~= Some(m));
}

impl Session {
    /// Encodes the session.
    pub fn encode(&self) -> (r: Vec<u8>)
        ensures
            r@ == session_bytes(self@),
    {
        let mut out: Vec<u8> = Vec::new();
        put_bytes(&mut out, self.client_id.as_slice());
        put_u64(&mut out, self.broker_id);
        put_u64(&mut out, self.session_expiry);
        put_opt_u64(&mut out, self.last_will_delay_interval);
        assert(out@ =~= session_bytes(self@));
        out
    }

    /// Decodes a session; `None` on malformed bytes.
    pub fn decode(buf: &[u8]) -> (r: Option<Session>)
        ensures
            match parse_session(buf@) {
                Some(m) => r is Some && r->Some_0@ == m,
                None => r is None,
            },
    {
        proof {
            assert(buf@.skip(0) =~= buf@);
        }
        let (client_id, pos1) = match read_bytes(buf, 0) {
            Some(x) => x,
            None => return None,
        };
        let (broker_id, pos2) = match read_u64(buf, pos1) {
            Some(x) => x,
            None => return None,
        };
        let (session_expiry, pos3) = match read_u64(buf, pos2) {
            Some(x) => x,
            None => return None,
        };
        let (last_will_delay_interval, pos4) = match read_opt_u64(buf, pos3) {
            Some(x) => x,
            None => return None,
        };
        if pos4 != buf.len() {
            return None;
        }
        let r = Session { client_id, broker_id, session_expiry, last_will_delay_interval };
        proof {
            assert(buf@.skip(pos4 as int).len() == 0);
        }
        Some(r)
    }
}

/// A client's last-will message.
pub struct LastWill {
    /// The client identifier.
    pub client_id: Vec<u8>,
    /// Encoded will message.
    pub last_will: Option<Vec<u8>>,
    /// Will delay interval, seconds.
    pub delay_interval: Option<u32>,
    /// Message expiry interval, seconds.
    pub message_expiry_interval: Option<u32>,
}

/// The value of a [`LastWill`].
pub struct LastWillModel {
    pub client_id: Seq<u8>,
    pub last_will: Option<Seq<u8>>,
    pub delay_interval: Option<u32>,
    pub message_expiry_interval: Option<u32>,
}

impl View for LastWill {
    type V = LastWillModel;

    open spec fn view(&self) -> LastWillModel {
        LastWillModel {
            client_id: self.client_id@,
            last_will: opt_view(self.last_will),
            delay_interval: self.delay_interval,
            message_expiry_interval: self.message_expiry_interval,
        }
    }
}

/// The encoded form of a lastwill.
pub open spec fn last_will_bytes(m: LastWillModel) -> Seq<u8> {
    enc_bytes(m.client_id) + (enc_opt_bytes(m.last_will) + (enc_opt_u32(m.delay_interval) + (enc_opt_u32(m.message_expiry_interval))))
}

/// Reads a whole lastwill; trailing bytes are refused.
pub open spec fn parse_last_will(s: Seq<u8>) -> Option<LastWillModel> {
    match parse_bytes(s) {
        Some((client_id, s1)) => match parse_opt_bytes(s1) {
            Some((last_will, s2)) => match parse_opt_u32(s2) {
                Some((delay_interval, s3)) => match parse_opt_u32(s3) {
                    Some((message_expiry_interval, s4)) => if s4.len() == 0 {
                        Some(LastWillModel { client_id, last_will, delay_interval, message_expiry_interval })
                    } else {
                        None
                    },
                    None => None,
                },
                None => None,
            },
            None => None,
        },
        None => None,
    }
}

/// Decoding an encoded lastwill gives it back.
pub proof fn lemma_last_will_round_trip(m: LastWillModel)
    requires
        m.client_id.len() <= u64::MAX,
        m.last_will is Some ==> m.last_will->Some_0.len() <= u64::MAX,
    ensures
        parse_last_will(last_will_bytes(m)) == Some(m),
{
    lemma_bytes_round_trip(m.client_id, enc_opt_bytes(m.last_will) + (enc_opt_u32(m.delay_interval) + (enc_opt_u32(m.message_expiry_interval))));
    lemma_opt_bytes_round_trip(m.last_will, enc_opt_u32(m.delay_interval) + (enc_opt_u32(m.message_expiry_interval)));
    lemma_opt_u32_round_trip(m.delay_interval, enc_opt_u32(m.message_expiry_interval));
    assert(enc_opt_u32(m.message_expiry_interval) + Seq::<u8>::empty() =~= enc_opt_u32(m.message_expiry_interval));
    lemma_opt_u32_round_trip(m.message_expiry_interval, Seq::<u8>::empty());
    assert(parse_last_will(last_will_bytes(m)) =~= Some(m));
}

impl LastWill {
    /// Encodes the lastwill.
    pub fn encode(&self) -> (r: Vec<u8>)
        ensures
            r@ == last_will_bytes(self@),
    {
        let mut out: Vec<u8> = Vec::new();
        put_bytes(&mut out, self.client_id.as_slice());
        put_opt_bytes(&mut out, &self.last_will);
        put_opt_u32(&mut out, self.delay_interval);
        put_opt_u32(&mut out, self.message_expiry_interval);
        assert(out@ =~= last_will_bytes(self@));
        out
    }

    /// Decodes a lastwill; `None` on malformed bytes.
    pub fn decode(buf: &[u8]) -> (r: Option<LastWill>)
        ensures
            match parse_last_will(buf@) {
                Some(m) => r is Some && r->Some_0@ == m,
                None => r is None,
            },
    {
        proof {
            assert(buf@.skip(0) =~= buf@);
        }
        let (client_id, pos1) = match read_bytes(buf, 0) {
            Some(x) => x,
            None => return None,
        };
        let (last_will, pos2) = match read_opt_bytes(buf, pos1) {
            Some(x) => x,
            None => return None,
        };
        let (delay_interval, pos3) = match read_opt_u32(buf, pos2) {
            Some(x) => x,
            None => return None,
        };
        let (message_expiry_interval, pos4) = match read_opt_u32(buf, pos3) {
            Some(x) => x,
            None => return None,
        };
        if pos4 != buf.len() {
            return None;
        }
        let r = LastWill { client_id, last_will, delay_interval, message_expiry_interval };
        proof {
            assert(buf@.skip(pos4 as int).len() == 0);
        }
        Some(r)
    }
}

/// A last will waiting to be sent once its delay has passed.
pub struct ExpireLastWill {
    /// The cluster of the client.
    pub cluster_name: Vec<u8>,
    /// The client identifier.
    pub client_id: Vec<u8>,
    /// Epoch second from which the will may be sent.
    pub delay_sec: u64,
}

/// The value of an [`ExpireLastWill`].
pub struct ExpireLastWillModel {
    pub cluster_name: Seq<u8>,
    pub client_id: Seq<u8>,
    pub delay_sec: u64,
}

impl View for ExpireLastWill {
    type V = ExpireLastWillModel;

    open spec fn view(&self) -> ExpireLastWillModel {
        ExpireLastWillModel {
            cluster_name: self.cluster_name@,
            client_id: self.client_id@,
            delay_sec: self.delay_sec,
        }
    }
}

/// The encoded form of an expirelastwill.
pub open spec fn expire_last_will_bytes(m: ExpireLastWillModel) -> Seq<u8> {
    enc_bytes(m.cluster_name) + (enc_bytes(m.client_id) + (be_bytes(m.delay_sec)))
}

/// Reads a whole expirelastwill; trailing bytes are refused.
pub open spec fn parse_expire_last_will(s: Seq<u8>) -> Option<ExpireLastWillModel> {
    match parse_bytes(s) {
        Some((cluster_name, s1)) => match parse_bytes(s1) {
            Some((client_id, s2)) => match parse_u64(s2) {
                Some((delay_sec, s3)) => if s3.len() == 0 {
                    Some(ExpireLastWillModel { cluster_name, client_id, delay_sec })
                } else {
                    None
                },
                None => None,
            },
            None => None,
        },
        None => None,
    }
}

/// Decoding an encoded expirelastwill gives it back.
pub proof fn lemma_expire_last_will_round_trip(m: ExpireLastWillModel)
    requires
        m.cluster_name.len() <= u64::MAX,
        m.client_id.len() <= u64::MAX,
    ensures
        parse_expire_last_will(expire_last_will_bytes(m)) == Some(m),
{
    lemma_bytes_round_trip(m.cluster_name, enc_bytes(m.client_id) + (be_bytes(m.delay_sec)));
    lemma_bytes_round_trip(m.client_id, be_bytes(m.delay_sec));
    assert(be_bytes(m.delay_sec) + Seq::<u8>::empty() =~= be_bytes(m.delay_sec));
    lemma_u64_round_trip(m.delay_sec, Seq::<u8>::empty());
    assert(parse_expire_last_will(expire_last_will_bytes(m)) =~= Some(m));
}

impl ExpireLastWill {
    /// Encodes the expirelastwill.
    pub fn encode(&self) -> (r: Vec<u8>)
        ensures
            r@ == expire_last_will_bytes(self@),
    {
        let mut out: Vec<u8> = Vec::new();
        put_bytes(&mut out, self.cluster_name.as_slice());
        put_bytes(&mut out, self.client_id.as_slice());
        put_u64(&mut out, self.delay_sec);
        assert(out@ =~= expire_last_will_bytes(self@));
        out
    }

    /// Decodes an expirelastwill; `None` on malformed bytes.
    pub fn decode(buf: &[u8]) -> (r: Option<ExpireLastWill>)
        ensures
            match parse_expire_last_will(buf@) {
                Some(m) => r is Some && r->Some_0@ == m,
                None => r is None,
            },
    {
        proof {
            assert(buf@.skip(0) =~= buf@);
        }
        let (cluster_name, pos1) = match read_bytes(buf, 0) {
            Some(x) => x,
            None => return None,
        };
        let (client_id, pos2) = match read_bytes(buf, pos1) {
            Some(x) => x,
            None => return None,
        };
        let (delay_sec, pos3) = match read_u64(buf, pos2) {
            Some(x) => x,
            None => return None,
        };
        if pos3 != buf.len() {
            return None;
        }
        let r = ExpireLastWill { cluster_name, client_id, delay_sec };
        proof {
            assert(buf@.skip(pos3 as int).len() == 0);
        }
        Some(r)
    }
}

/// A request to create or delete one record of a cluster.
pub struct RecordRequest {
    /// The cluster.
    pub cluster_name: Vec<u8>,
    /// The record's name: username, topic name or client id.
    pub name: Vec<u8>,
    /// The record's encoded payload; empty for a delete.
    pub content: Vec<u8>,
}

/// The value of a [`RecordRequest`].
pub struct RecordRequestModel {
    pub cluster_name: Seq<u8>,
    pub name: Seq<u8>,
    pub content: Seq<u8>,
}

impl View for RecordRequest {
    type V = RecordRequestModel;

    open spec fn view(&self) -> RecordRequestModel {
        RecordRequestModel {
            cluster_name: self.cluster_name@,
            name: self.name@,
            content: self.content@,
        }
    }
}

/// The encoded form of a recordrequest.
pub open spec fn record_request_bytes(m: RecordRequestModel) -> Seq<u8> {
    enc_bytes(m.cluster_name) + (enc_bytes(m.name) + (enc_bytes(m.content)))
}

/// Reads a whole recordrequest; trailing bytes are refused.
pub open spec fn parse_record_request(s: Seq<u8>) -> Option<RecordRequestModel> {
    match parse_bytes(s) {
        Some((cluster_name, s1)) => match parse_bytes(s1) {
            Some((name, s2)) => match parse_bytes(s2) {
                Some((content, s3)) => if s3.len() == 0 {
                    Some(RecordRequestModel { cluster_name, name, content })
                } else {
                    None
                },
                None => None,
            },
            None => None,
        },
        None => None,
    }
}

/// Decoding an encoded recordrequest gives it back.
pub proof fn lemma_record_request_round_trip(m: RecordRequestModel)
    requires
        m.cluster_name.len() <= u64::MAX,
        m.name.len() <= u64::MAX,
        m.content.len() <= u64::MAX,
    ensures
        parse_record_request(record_request_bytes(m)) == Some(m),
{
    lemma_bytes_round_trip(m.cluster_name, enc_bytes(m.name) + (enc_bytes(m.content)));
    lemma_bytes_round_trip(m.name, enc_bytes(m.content));
    assert(enc_bytes(m.content) + Seq::<u8>::empty() =~= enc_bytes(m.content));
    lemma_bytes_round_trip(m.content, Seq::<u8>::empty());
    assert(parse_record_request(record_request_bytes(m)) =~= Some(m));
}

impl RecordRequest {
    /// Encodes the recordrequest.
    pub fn encode(&self) -> (r: Vec<u8>)
        ensures
            r@ == record_request_bytes(self@),
    {
        let mut out: Vec<u8> = Vec::new();
        put_bytes(&mut out, self.cluster_name.as_slice());
        put_bytes(&mut out, self.name.as_slice());
        put_bytes(&mut out, self.content.as_slice());
        assert(out@ =~= record_request_bytes(self@));
        out
    }

    /// Decodes a recordrequest; `None` on malformed bytes.
    pub fn decode(buf: &[u8]) -> (r: Option<RecordRequest>)
        ensures
            match parse_record_request(buf@) {
                Some(m) => r is Some && r->Some_0@ == m,
                None => r is None,
            },
    {
        proof {
            assert(buf@.skip(0) =~= buf@);
        }
        let (cluster_name, pos1) = match read_bytes(buf, 0) {
            Some(x) => x,
            None => return None,
        };
        let (name, pos2) = match read_bytes(buf, pos1) {
            Some(x) => x,
            None => return None,
        };
        let (content, pos3) = match read_bytes(buf, pos2) {
            Some(x) => x,
            None => return None,
        };
        if pos3 != buf.len() {
            return None;
        }
        let r = RecordRequest { cluster_name, name, content };
        proof {
            assert(buf@.skip(pos3 as int).len() == 0);
        }
        Some(r)
    }
}

/// A request to set a topic's retained message.
pub struct RetainRequest {
    /// The cluster.
    pub cluster_name: Vec<u8>,
    /// The topic.
    pub topic_name: Vec<u8>,
    /// The encoded retained message.
    pub retain_message: Vec<u8>,
    /// Lifetime of the retained message, seconds.
    pub expired_at: u64,
}

/// The value of a [`RetainRequest`].
pub struct RetainRequestModel {
    pub cluster_name: Seq<u8>,
    pub topic_name: Seq<u8>,
    pub retain_message: Seq<u8>,
    pub expired_at: u64,
}

impl View for RetainRequest {
    type V = RetainRequestModel;

    open spec fn view(&self) -> RetainRequestModel {
        RetainRequestModel {
            cluster_name: self.cluster_name@,
            topic_name: self.topic_name@,
            retain_message: self.retain_message@,
            expired_at: self.expired_at,
        }
    }
}

/// The encoded form of a retainrequest.
pub open spec fn retain_request_bytes(m: RetainRequestModel) -> Seq<u8> {
    enc_bytes(m.cluster_name) + (enc_bytes(m.topic_name) + (enc_bytes(m.retain_message) + (be_bytes(m.expired_at))))
}

/// Reads a whole retainrequest; trailing bytes are refused.
pub open spec fn parse_retain_request(s: Seq<u8>) -> Option<RetainRequestModel> {
    match parse_bytes(s) {
        Some((cluster_name, s1)) => match parse_bytes(s1) {
            Some((topic_name, s2)) => match parse_bytes(s2) {
                Some((retain_message, s3)) => match parse_u64(s3) {
                    Some((expired_at, s4)) => if s4.len() == 0 {
                        Some(RetainRequestModel { cluster_name, topic_name, retain_message, expired_at })
                    } else {
                        None
                    },
                    None => None,
                },
                None => None,
            },
            None => None,
        },
        None => None,
    }
}

/// Decoding an encoded retainrequest gives it back.
pub proof fn lemma_retain_request_round_trip(m: RetainRequestModel)
    requires
        m.cluster_name.len() <= u64::MAX,
        m.topic_name.len() <= u64::MAX,
        m.retain_message.len() <= u64::MAX,
    ensures
        parse_retain_request(retain_request_bytes(m)) == Some(m),
{
    lemma_bytes_round_trip(m.cluster_name, enc_bytes(m.topic_name) + (enc_bytes(m.retain_message) + (be_bytes(m.expired_at))));
    lemma_bytes_round_trip(m.topic_name, enc_bytes(m.retain_message) + (be_bytes(m.expired_at)));
    lemma_bytes_round_trip(m.retain_message, be_bytes(m.expired_at));
    assert(be_bytes(m.expired_at) + Seq::<u8>::empty() =~= be_bytes(m.expired_at));
    lemma_u64_round_trip(m.expired_at, Seq::<u8>::empty());
    assert(parse_retain_request(retain_request_bytes(m)) =~= Some(m));
}

impl RetainRequest {
    /// Encodes the retainrequest.
    pub fn encode(&self) -> (r: Vec<u8>)
        ensures
            r@ == retain_request_bytes(self@),
    {
        let mut out: Vec<u8> = Vec::new();
        put_bytes(&mut out, self.cluster_name.as_slice());
        put_bytes(&mut out, self.topic_name.as_slice());
        put_bytes(&mut out, self.retain_message.as_slice());
        put_u64(&mut out, self.expired_at);
        assert(out@ =~= retain_request_bytes(self@));
        out
    }

    /// Decodes a retainrequest; `None` on malformed bytes.
    pub fn decode(buf: &[u8]) -> (r: Option<RetainRequest>)
        ensures
            match parse_retain_request(buf@) {
                Some(m) => r is Some && r->Some_0@ == m,
                None => r is None,
            },
    {
        proof {
            assert(buf@.skip(0) =~= buf@);
        }
        let (cluster_name, pos1) = match read_bytes(buf, 0) {
            Some(x) => x,
            None => return None,
        };
        let (topic_name, pos2) = match read_bytes(buf, pos1) {
            Some(x) => x,
            None => return None,
        };
        let (retain_message, pos3) = match read_bytes(buf, pos2) {
            Some(x) => x,
            None => return None,
        };
        let (expired_at, pos4) = match read_u64(buf, pos3) {
            Some(x) => x,
            None => return None,
        };
        if pos4 != buf.len() {
            return None;
        }
        let r = RetainRequest { cluster_name, topic_name, retain_message, expired_at };
        proof {
            assert(buf@.skip(pos4 as int).len() == 0);
        }
        Some(r)
    }
}

/// A bridge connector.
pub struct Connector {
    /// The connector's name.
    pub connector_name: Vec<u8>,
    /// Kind of connector.
    pub connector_type: Vec<u8>,
    /// Connector configuration.
    pub config: Vec<u8>,
}

/// The value of a [`Connector`].
pub struct ConnectorModel {
    pub connector_name: Seq<u8>,
    pub connector_type: Seq<u8>,
    pub config: Seq<u8>,
}

impl View for Connector {
    type V = ConnectorModel;

    open spec fn view(&self) -> ConnectorModel {
        ConnectorModel {
            connector_name: self.connector_name@,
            connector_type: self.connector_type@,
            config: self.config@,
        }
    }
}

/// The encoded form of a connector.
pub open spec fn connector_bytes(m: ConnectorModel) -> Seq<u8> {
    enc_bytes(m.connector_name) + (enc_bytes(m.connector_type) + (enc_bytes(m.config)))
}

/// Reads a whole connector; trailing bytes are refused.
pub open spec fn parse_connector(s: Seq<u8>) -> Option<ConnectorModel> {
    match parse_bytes(s) {
        Some((connector_name, s1)) => match parse_bytes(s1) {
            Some((connector_type, s2)) => match parse_bytes(s2) {
                Some((config, s3)) => if s3.len() == 0 {
                    Some(ConnectorModel { connector_name, connector_type, config })
                } else {
                    None
                },
                None => None,
            },
            None => None,
        },
        None => None,
    }
}

/// Decoding an encoded connector gives it back.
pub proof fn lemma_connector_round_trip(m: ConnectorModel)
    requires
        m.connector_name.len() <= u64::MAX,
        m.connector_type.len() <= u64::MAX,
        m.config.len() <= u64::MAX,
    ensures
        parse_connector(connector_bytes(m)) == Some(m),
{
    lemma_bytes_round_trip(m.connector_name, enc_bytes(m.connector_type) + (enc_bytes(m.config)));
    lemma_bytes_round_trip(m.connector_type, enc_bytes(m.config));
    assert(enc_bytes(m.config) + Seq::<u8>::empty() =~= enc_bytes(m.config));
    lemma_bytes_round_trip(m.config, Seq::<u8>::empty());
    assert(parse_connector(connector_bytes(m)) =~= Some(m));
}

impl Connector {
    /// Encodes the connector.
    pub fn encode(&self) -> (r: Vec<u8>)
        ensures
            r@ == connector_bytes(self@),
    {
        let mut out: Vec<u8> = Vec::new();
        put_bytes(&mut out, self.connector_name.as_slice());
        put_bytes(&mut out, self.connector_type.as_slice());
        put_bytes(&mut out, self.config.as_slice());
        assert(out@ =~= connector_bytes(self@));
        out
    }

    /// Decodes a connector; `None` on malformed bytes.
    pub fn decode(buf: &[u8]) -> (r: Option<Connector>)
        ensures
            match parse_connector(buf@) {
                Some(m) => r is Some && r->Some_0@ == m,
                None => r is None,
            },
    {
        proof {
            assert(buf@.skip(0) =~= buf@);
        }
        let (connector_name, pos1) = match read_bytes(buf, 0) {
            Some(x) => x,
            None => return None,
        };
        let (connector_type, pos2) = match read_bytes(buf, pos1) {
            Some(x) => x,
            None => return None,
        };
        let (config, pos3) = match read_bytes(buf, pos2) {
            Some(x) => x,
            None => return None,
        };
        if pos3 != buf.len() {
            return None;
        }
        let r = Connector { connector_name, connector_type, config };
        proof {
            assert(buf@.skip(pos3 as int).len() == 0);
        }
        Some(r)
    }
}

} // verus!
