//! Election of the broker that leads a shared-subscription group.
use vstd::prelude::*;

verus! {

broadcast use vstd::seq_lib::seq_to_set_is_finite;

/// Modulus of the group-name hash (the largest prime below 2^32).
pub const HASH_MODULUS: u64 = 4294967291;

/// Why no leader could be elected.
#[derive(Clone, Copy, Debug, PartialEq, Eq, Structural)]
pub enum ShareSubError {
    /// The cluster has no live broker.
    NoBrokerAvailable,
}

/// A stable hash of a group name: a base-31 polynomial over its bytes, modulo [`HASH_MODULUS`].
pub open spec fn group_hash(g: Seq<u8>) -> nat
    decreases g.len(),
{
    if g.len() == 0 {
        0
    } else {
        ((group_hash(g.drop_last()) * 31 + g.last() as nat) % (HASH_MODULUS as nat)) as nat
    }
}

/// How many members lie below `x`.
pub open spec fn rank(s: Set<u64>, x: u64) -> nat {
    s.filter(|y: u64| y < x).len()
}

/// `x` leads group `g` among members `s`: it is the member whose place in
/// ascending order is the group's hash modulo the number of members.
pub open spec fn is_leader(s: Set<u64>, g: Seq<u8>, x: u64) -> bool {
    s.contains(x) && s.len() > 0 && rank(s, x) == group_hash(g) % s.len()
}

/// Strictly ascending.
pub open spec fn ascending(v: Seq<u64>) -> bool {
    forall|i: int, j: int| 0 <= i < j < v.len() ==> v[i] < v[j]
}

/// The hash of a group name.
pub fn hash_group(g: &[u8]) -> (r: u64)
    ensures
        r as nat == group_hash(g@),
        r < HASH_MODULUS,
{
    let mut h: u64 = 0;
    let mut i: usize = 0;
    while i < g.len()
        invariant
            i <= g.len(),
            h < HASH_MODULUS,
            h as nat == group_hash(g@.take(i as int)),
        decreases g.len() - i,
    {
        assert(g@.take(i as int + 1).drop_last() =~= g@.take(i as int));
        assert(g@.take(i as int + 1).last() == g@[i as int]);
        h = (h * 31 + g[i] as u64) % HASH_MODULUS;
        i += 1;
    }
    assert(g@.take(i as int) =~= g@);
    h
}

/// The distinct members in ascending order.
pub fn sorted_members(members: &[u64]) -> (r: Vec<u64>)
    ensures
        ascending(r@),
        r@.to_set() == members@.to_set(),
{
    let mut v: Vec<u64> = Vec::new();
    let mut i: usize = 0;
    while i < members.len()
        invariant
            i <= members.len(),
            ascending(v@),
            v@.to_set() == members@.take(i as int).to_set(),
        decreases members.len() - i,
    {
        let m = members[i];
        let mut p: usize = 0;
        while p < v.len() && v[p] < m
            invariant
                p <= v.len(),
                forall|j: int| 0 <= j < p ==> v@[j] < m,
            decreases v.len() - p,
        {
            p += 1;
        }
        let ghost v0 = v@;
        proof {
            let t0 = members@.take(i as int);
            let t1 = members@.take(i as int + 1);
            assert forall|x: u64| #[trigger] t1.contains(x) <==> (t0.contains(x) || x == m) by {
                if t1.contains(x) {
                    let j = choose|j: int| 0 <= j < t1.len() && t1[j] == x;
                    if j < i {
                        assert(t0[j] == x);
                    }
                }
                if t0.contains(x) {
                    let j = choose|j: int| 0 <= j < t0.len() && t0[j] == x;
                    assert(t1[j] == x);
                }
                if x == m {
                    assert(t1[i as int] == m);
                }
            }
        }
        if p < v.len() && v[p] == m {
            assert(v0.to_set() =~= members@.take(i as int + 1).to_set()) by {
                assert(members@.take(i as int + 1) =~= members@.take(i as int).push(m));
                assert(v0.contains(m));
            }
        } else {
            v.insert(p, m);
            assert(v@ =~= v0.insert(p as int, m));
            assert(v@.to_set() =~= members@.take(i as int + 1).to_set()) by {
                assert(members@.take(i as int + 1) =~= members@.take(i as int).push(m));
                assert forall|x: u64| v@.contains(x) implies v0.contains(x) || x == m by {
                    let j = choose|j: int| 0 <= j < v@.len() && v@[j] == x;
                    if j < p {
                        assert(v0[j] == x);
                    } else if j > p {
                        assert(v0[j - 1] == x);
                    }
                }
                assert forall|x: u64| v0.contains(x) implies v@.contains(x) by {
                    let j = choose|j: int| 0 <= j < v0.len() && v0[j] == x;
                    if j < p {
                        assert(v@[j] == x);
                    } else {
                        assert(v@[j + 1] == x);
                    }
                }
                assert(v@[p as int] == m);
                assert(v@.contains(m));
                assert forall|x: u64| #[trigger] v@.to_set().contains(x) <==> members@.take(
                    i as int + 1,
                ).to_set().contains(x) by {
                    assert(v0.to_set().contains(x) == members@.take(i as int).to_set().contains(x));
                }
            }
        }
        i += 1;
    }
    assert(members@.take(i as int) =~= members@);
    v
}

/// In an ascending sequence, the element at `k` has exactly `k` elements below it.
proof fn lemma_rank_ascending(v: Seq<u64>, k: int)
    requires
        ascending(v),
        0 <= k < v.len(),
    ensures
        rank(v.to_set(), v[k]) == k,
        v.to_set().len() == v.len(),
{
    let below = v.to_set().filter(|y: u64| y < v[k]);
    assert(below =~= v.take(k).to_set()) by {
        assert forall|y: u64| below.contains(y) implies v.take(k).to_set().contains(y) by {
            let j = choose|j: int| 0 <= j < v.len() && v[j] == y;
            if j >= k {
                if j > k {
                    assert(v[k] < v[j]);
                }
            }
            assert(v.take(k)[j] == y);
        }
        assert forall|y: u64| v.take(k).to_set().contains(y) implies below.contains(y) by {
            let j = choose|j: int| 0 <= j < k && v.take(k)[j] == y;
            assert(v[j] == y);
        }
    }
    assert(v.take(k).no_duplicates());
    v.take(k).unique_seq_to_set();
    assert(v.no_duplicates());
    v.unique_seq_to_set();
}

/// The leader of group `group` among `members`: the distinct members are put
/// in ascending order and the group's hash, modulo their number, picks one.
/// Fails when there are no members.
pub fn calc_share_sub_leader(group: &[u8], members: &[u64]) -> (r: Result<u64, ShareSubError>)
    ensures
        r is Err <==> members@.len() == 0,
        r is Err ==> r == Err::<u64, ShareSubError>(ShareSubError::NoBrokerAvailable),
        r is Ok ==> is_leader(members@.to_set(), group@, r->Ok_0),
{
    let v = sorted_members(members);
    if v.len() == 0 {
        proof {
            if members@.len() > 0 {
                assert(members@.to_set().contains(members@[0]));
                assert(v@.to_set().contains(members@[0]));
            }
        }
        return Err(ShareSubError::NoBrokerAvailable);
    }
    let h = hash_group(group);
    let k = (h % (v.len() as u64)) as usize;
    proof {
        lemma_rank_ascending(v@, k as int);
        assert(v@.to_set().contains(v@[k as int]));
        assert(members@.len() > 0) by {
            let x = v@[0];
            assert(v@.to_set().contains(x));
            assert(members@.to_set().contains(x));
        }
    }
    Ok(v[k])
}

/// Two member lists with the same members elect the same leader, whatever
/// their order or repetitions: a leader is determined by the member set and the group.
pub proof fn law_leader_determined(m1: Seq<u64>, m2: Seq<u64>, g: Seq<u8>, x: u64, y: u64)
    requires
        m1.to_set() == m2.to_set(),
        is_leader(m1.to_set(), g, x),
        is_leader(m2.to_set(), g, y),
    ensures
        x == y,
{
    let s = m1.to_set();
    if x < y {
        lemma_rank_strict(s, x, y);
    } else if y < x {
        lemma_rank_strict(s, y, x);
    }
}

proof fn lemma_rank_strict(s: Set<u64>, x: u64, y: u64)
    requires
        s.finite(),
        s.contains(x),
        x < y,
    ensures
        rank(s, x) < rank(s, y),
{
    let a = s.filter(|z: u64| z < x);
    let b = s.filter(|z: u64| z < y);
    assert(b.subset_of(s));
    vstd::set_lib::lemma_set_subset_finite(s, b);
    assert(a.insert(x).subset_of(b));
    vstd::set_lib::lemma_len_subset(a.insert(x), b);
    vstd::set_lib::lemma_set_subset_finite(s, a);
    assert(!a.contains(x));
}

} // verus!
