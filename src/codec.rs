//! Binary field encoding: big-endian integers, length-prefixed byte strings,
//! flags and optional fields, each with an exact parser.
use vstd::prelude::*;

verus! {

/// Eight big-endian bytes of `x`.
pub open spec fn be_bytes(x: u64) -> Seq<u8> {
    seq![
        (x >> 56u64) as u8,
        (x >> 48u64) as u8,
        (x >> 40u64) as u8,
        (x >> 32u64) as u8,
        (x >> 24u64) as u8,
        (x >> 16u64) as u8,
        (x >> 8u64) as u8,
        x as u8,
    ]
}

/// The integer held big-endian in the first eight bytes of `b`.
pub open spec fn be_value(b: Seq<u8>) -> u64
    recommends
        b.len() >= 8,
{
    (b[0] as u64) << 56u64 | (b[1] as u64) << 48u64 | (b[2] as u64) << 40u64 | (b[3] as u64)
        << 32u64 | (b[4] as u64) << 24u64 | (b[5] as u64) << 16u64 | (b[6] as u64) << 8u64 | (
    b[7] as u64)
}

pub proof fn lemma_be_round_trip(x: u64)
    ensures
        be_value(be_bytes(x)) == x,
{
    let b = be_bytes(x);
    let b0 = b[0];
    let b1 = b[1];
    let b2 = b[2];
    let b3 = b[3];
    let b4 = b[4];
    let b5 = b[5];
    let b6 = b[6];
    let b7 = b[7];
    assert((b0 as u64) << 56u64 | (b1 as u64) << 48u64 | (b2 as u64) << 40u64 | (b3 as u64)
        << 32u64 | (b4 as u64) << 24u64 | (b5 as u64) << 16u64 | (b6 as u64) << 8u64 | (
    b7 as u64) == x) by (bit_vector)
        requires
            b0 == (x >> 56u64) as u8,
            b1 == (x >> 48u64) as u8,
            b2 == (x >> 40u64) as u8,
            b3 == (x >> 32u64) as u8,
            b4 == (x >> 24u64) as u8,
            b5 == (x >> 16u64) as u8,
            b6 == (x >> 8u64) as u8,
            b7 == x as u8,
    ;
}

pub open spec fn parse_u64(s: Seq<u8>) -> Option<(u64, Seq<u8>)> {
    if s.len() >= 8 {
        Some((be_value(s), s.skip(8)))
    } else {
        None
    }
}

/// A byte string: its length as eight bytes, then its bytes.
pub open spec fn enc_bytes(d: Seq<u8>) -> Seq<u8> {
    be_bytes(d.len() as u64) + d
}

pub open spec fn parse_bytes(s: Seq<u8>) -> Option<(Seq<u8>, Seq<u8>)> {
    match parse_u64(s) {
        Some((n, r)) => if n <= r.len() {
            Some((r.take(n as int), r.skip(n as int)))
        } else {
            None
        },
        None => None,
    }
}

/// A flag: one byte, 0 or 1.
pub open spec fn enc_flag(b: bool) -> Seq<u8> {
    seq![if b { 1u8 } else { 0u8 }]
}

pub open spec fn parse_flag(s: Seq<u8>) -> Option<(bool, Seq<u8>)> {
    if s.len() >= 1 && s[0] <= 1 {
        Some((s[0] == 1, s.skip(1)))
    } else {
        None
    }
}

pub open spec fn enc_opt_bytes(o: Option<Seq<u8>>) -> Seq<u8> {
    match o {
        Some(d) => enc_flag(true) + enc_bytes(d),
        None => enc_flag(false),
    }
}

pub open spec fn parse_opt_bytes(s: Seq<u8>) -> Option<(Option<Seq<u8>>, Seq<u8>)> {
    match parse_flag(s) {
        Some((true, r)) => match parse_bytes(r) {
            Some((d, r2)) => Some((Some(d), r2)),
            None => None,
        },
        Some((false, r)) => Some((None, r)),
        None => None,
    }
}

pub open spec fn enc_opt_u64(o: Option<u64>) -> Seq<u8> {
    match o {
        Some(x) => enc_flag(true) + be_bytes(x),
        None => enc_flag(false),
    }
}

pub open spec fn parse_opt_u64(s: Seq<u8>) -> Option<(Option<u64>, Seq<u8>)> {
    match parse_flag(s) {
        Some((true, r)) => match parse_u64(r) {
            Some((x, r2)) => Some((Some(x), r2)),
            None => None,
        },
        Some((false, r)) => Some((None, r)),
        None => None,
    }
}

pub proof fn lemma_u64_round_trip(x: u64, r: Seq<u8>)
    ensures
        parse_u64(be_bytes(x) + r) == Some((x, r)),
{
    let s = be_bytes(x) + r;
    lemma_be_round_trip(x);
    assert(s.take(8) =~= be_bytes(x));
    assert(s.skip(8) =~= r);
    assert(be_value(s) == be_value(be_bytes(x)));
}

pub proof fn lemma_bytes_round_trip(d: Seq<u8>, r: Seq<u8>)
    requires
        d.len() <= u64::MAX,
    ensures
        parse_bytes(enc_bytes(d) + r) == Some((d, r)),
{
    let s = enc_bytes(d) + r;
    assert(s =~= be_bytes(d.len() as u64) + (d + r));
    lemma_u64_round_trip(d.len() as u64, d + r);
    assert((d + r).take(d.len() as int) =~= d);
    assert((d + r).skip(d.len() as int) =~= r);
}

pub proof fn lemma_flag_round_trip(b: bool, r: Seq<u8>)
    ensures
        parse_flag(enc_flag(b) + r) == Some((b, r)),
{
    assert((enc_flag(b) + r).skip(1) =~= r);
}

pub proof fn lemma_opt_bytes_round_trip(o: Option<Seq<u8>>, r: Seq<u8>)
    requires
        o is Some ==> o->Some_0.len() <= u64::MAX,
    ensures
        parse_opt_bytes(enc_opt_bytes(o) + r) == Some((o, r)),
{
    match o {
        Some(d) => {
            assert(enc_opt_bytes(o) + r =~= enc_flag(true) + (enc_bytes(d) + r));
            lemma_flag_round_trip(true, enc_bytes(d) + r);
            lemma_bytes_round_trip(d, r);
        },
        None => {
            lemma_flag_round_trip(false, r);
        },
    }
}

pub proof fn lemma_opt_u64_round_trip(o: Option<u64>, r: Seq<u8>)
    ensures
        parse_opt_u64(enc_opt_u64(o) + r) == Some((o, r)),
{
    match o {
        Some(x) => {
            assert(enc_opt_u64(o) + r =~= enc_flag(true) + (be_bytes(x) + r));
            lemma_flag_round_trip(true, be_bytes(x) + r);
            lemma_u64_round_trip(x, r);
        },
        None => {
            lemma_flag_round_trip(false, r);
        },
    }
}

pub open spec fn enc_opt_u32(o: Option<u32>) -> Seq<u8> {
    match o {
        Some(x) => enc_opt_u64(Some(x as u64)),
        None => enc_opt_u64(None),
    }
}

pub open spec fn parse_opt_u32(s: Seq<u8>) -> Option<(Option<u32>, Seq<u8>)> {
    match parse_opt_u64(s) {
        Some((Some(x), r)) => if x <= u32::MAX {
            Some((Some(x as u32), r))
        } else {
            None
        },
        Some((None, r)) => Some((None, r)),
        None => None,
    }
}

pub proof fn lemma_opt_u32_round_trip(o: Option<u32>, r: Seq<u8>)
    ensures
        parse_opt_u32(enc_opt_u32(o) + r) == Some((o, r)),
{
    match o {
        Some(x) => lemma_opt_u64_round_trip(Some(x as u64), r),
        None => lemma_opt_u64_round_trip(None, r),
    }
}

// ---- writers ----

pub fn put_u64(out: &mut Vec<u8>, x: u64)
    ensures
        final(out)@ == old(out)@ + be_bytes(x),
{
    out.push((x >> 56u64) as u8);
    out.push((x >> 48u64) as u8);
    out.push((x >> 40u64) as u8);
    out.push((x >> 32u64) as u8);
    out.push((x >> 24u64) as u8);
    out.push((x >> 16u64) as u8);
    out.push((x >> 8u64) as u8);
    out.push(x as u8);
    assert(out@ =~= old(out)@ + be_bytes(x));
}

/// Appends the bytes of `d` as they are.
pub fn push_all(out: &mut Vec<u8>, d: &[u8])
    ensures
        final(out)@ == old(out)@ + d@,
{
    let ghost mid = out@;
    let mut i: usize = 0;
    while i < d.len()
        invariant
            i <= d.len(),
            out@ == mid + d@.take(i as int),
        decreases d.len() - i,
    {
        out.push(d[i]);
        assert(d@.take(i as int + 1) =~= d@.take(i as int).push(d@[i as int]));
        i += 1;
    }
    assert(d@.take(i as int) =~= d@);
}

pub fn put_bytes(out: &mut Vec<u8>, d: &[u8])
    ensures
        final(out)@ == old(out)@ + enc_bytes(d@),
{
    put_u64(out, d.len() as u64);
    push_all(out, d);
    assert(out@ =~= old(out)@ + enc_bytes(d@));
}

pub fn put_flag(out: &mut Vec<u8>, b: bool)
    ensures
        final(out)@ == old(out)@ + enc_flag(b),
{
    out.push(if b { 1u8 } else { 0u8 });
    assert(out@ =~= old(out)@ + enc_flag(b));
}

pub fn put_opt_bytes(out: &mut Vec<u8>, o: &Option<Vec<u8>>)
    ensures
        final(out)@ == old(out)@ + enc_opt_bytes(opt_view(*o)),
{
    match o {
        Some(d) => {
            put_flag(out, true);
            put_bytes(out, d.as_slice());
            assert(out@ =~= old(out)@ + enc_opt_bytes(opt_view(*o)));
        },
        None => {
            put_flag(out, false);
        },
    }
}

pub fn put_opt_u64(out: &mut Vec<u8>, o: Option<u64>)
    ensures
        final(out)@ == old(out)@ + enc_opt_u64(o),
{
    match o {
        Some(x) => {
            put_flag(out, true);
            put_u64(out, x);
            assert(out@ =~= old(out)@ + enc_opt_u64(o));
        },
        None => {
            put_flag(out, false);
        },
    }
}

pub fn put_opt_u32(out: &mut Vec<u8>, o: Option<u32>)
    ensures
        final(out)@ == old(out)@ + enc_opt_u32(o),
{
    match o {
        Some(x) => put_opt_u64(out, Some(x as u64)),
        None => put_opt_u64(out, None),
    }
}

/// The view of an optional byte vector.
pub open spec fn opt_view(o: Option<Vec<u8>>) -> Option<Seq<u8>> {
    match o {
        Some(v) => Some(v@),
        None => None,
    }
}

// ---- readers: each reads at `pos` and returns the position after ----

/// What a reader returns, against the spec parser on what is left of `buf` at `pos`.
pub open spec fn read_matches<T>(buf: Seq<u8>, r: Option<(T, usize)>, p: Option<(T, Seq<u8>)>) -> bool {
    match p {
        None => r is None,
        Some((v, rest)) => r is Some && r->Some_0.0 == v && r->Some_0.1 <= buf.len() && buf.skip(
            r->Some_0.1 as int,
        ) == rest,
    }
}

pub fn read_u64(buf: &[u8], pos: usize) -> (r: Option<(u64, usize)>)
    requires
        pos <= buf@.len(),
    ensures
        read_matches(buf@, r, parse_u64(buf@.skip(pos as int))),
{
    if buf.len() - pos < 8 {
        return None;
    }
    let x: u64 = (buf[pos] as u64) << 56u64 | (buf[pos + 1] as u64) << 48u64 | (buf[pos + 2] as u64)
        << 40u64 | (buf[pos + 3] as u64) << 32u64 | (buf[pos + 4] as u64) << 24u64 | (buf[pos
        + 5] as u64) << 16u64 | (buf[pos + 6] as u64) << 8u64 | (buf[pos + 7] as u64);
    let ghost s = buf@.skip(pos as int);
    assert(s[0] == buf@[pos as int]);
    assert(s[1] == buf@[pos + 1]);
    assert(s[2] == buf@[pos + 2]);
    assert(s[3] == buf@[pos + 3]);
    assert(s[4] == buf@[pos + 4]);
    assert(s[5] == buf@[pos + 5]);
    assert(s[6] == buf@[pos + 6]);
    assert(s[7] == buf@[pos + 7]);
    assert(buf@.skip(pos + 8) =~= s.skip(8));
    Some((x, pos + 8))
}

pub fn read_bytes(buf: &[u8], pos: usize) -> (r: Option<(Vec<u8>, usize)>)
    requires
        pos <= buf@.len(),
    ensures
        match parse_bytes(buf@.skip(pos as int)) {
            None => r is None,
            Some((d, rest)) => r is Some && r->Some_0.0@ == d && r->Some_0.1 <= buf@.len()
                && buf@.skip(r->Some_0.1 as int) == rest,
        },
{
    match read_u64(buf, pos) {
        None => None,
        Some((n, next)) => {
            if n > (buf.len() - next) as u64 {
                return None;
            }
            let n = n as usize;
            assert(next + n <= buf@.len());
            let end: usize = next + n;
            let mut d: Vec<u8> = Vec::new();
            let mut j: usize = next;
            while j < end
                invariant
                    next <= j <= end,
                    end <= buf@.len(),
                    d@ == buf@.subrange(next as int, j as int),
                decreases end - j,
            {
                d.push(buf[j]);
                assert(buf@.subrange(next as int, j + 1) =~= buf@.subrange(next as int, j as int).push(buf@[j as int]));
                j += 1;
            }
            let ghost r1 = buf@.skip(next as int);
            assert(d@ =~= r1.take(n as int));
            assert(buf@.skip(next + n) =~= r1.skip(n as int));
            Some((d, next + n))
        },
    }
}

pub fn read_flag(buf: &[u8], pos: usize) -> (r: Option<(bool, usize)>)
    requires
        pos <= buf@.len(),
    ensures
        read_matches(buf@, r, parse_flag(buf@.skip(pos as int))),
{
    if pos >= buf.len() || buf[pos] > 1 {
        return None;
    }
    assert(buf@.skip(pos + 1) =~= buf@.skip(pos as int).skip(1));
    Some((buf[pos] == 1, pos + 1))
}

pub fn read_opt_bytes(buf: &[u8], pos: usize) -> (r: Option<(Option<Vec<u8>>, usize)>)
    requires
        pos <= buf@.len(),
    ensures
        match parse_opt_bytes(buf@.skip(pos as int)) {
            None => r is None,
            Some((o, rest)) => r is Some && opt_view(r->Some_0.0) == o && r->Some_0.1 <= buf@.len()
                && buf@.skip(r->Some_0.1 as int) == rest,
        },
{
    match read_flag(buf, pos) {
        None => None,
        Some((false, next)) => Some((None, next)),
        Some((true, next)) => match read_bytes(buf, next) {
            None => None,
            Some((d, after)) => Some((Some(d), after)),
        },
    }
}

pub fn read_opt_u64(buf: &[u8], pos: usize) -> (r: Option<(Option<u64>, usize)>)
    requires
        pos <= buf@.len(),
    ensures
        read_matches(buf@, r, parse_opt_u64(buf@.skip(pos as int))),
{
    match read_flag(buf, pos) {
        None => None,
        Some((false, next)) => Some((None, next)),
        Some((true, next)) => match read_u64(buf, next) {
            None => None,
            Some((x, after)) => Some((Some(x), after)),
        },
    }
}

pub fn read_opt_u32(buf: &[u8], pos: usize) -> (r: Option<(Option<u32>, usize)>)
    requires
        pos <= buf@.len(),
    ensures
        read_matches(buf@, r, parse_opt_u32(buf@.skip(pos as int))),
{
    match read_opt_u64(buf, pos) {
        None => None,
        Some((None, next)) => Some((None, next)),
        Some((Some(x), next)) => {
            if x > u32::MAX as u64 {
                return None;
            }
            Some((Some(x as u32), next))
        },
    }
}

} // verus!
