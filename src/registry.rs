use vstd::prelude::*;
use crate::backend::BackendServer;

verus! {

/// The records of `s` whose health flag is set, in registration order.
pub open spec fn healthy_of(s: Seq<BackendServer>) -> Seq<BackendServer>
    decreases s.len(),
{
    if s.len() == 0 {
        Seq::empty()
    } else {
        let rest = healthy_of(s.drop_last());
        if s.last().healthy {
            rest.push(s.last())
        } else {
            rest
        }
    }
}

/// Index of the first record of `s` registered under `addr`, or `s.len()`
/// when there is none.
pub open spec fn find_address(s: Seq<BackendServer>, addr: Seq<char>) -> int
    decreases s.len(),
{
    if s.len() == 0 {
        0
    } else if s[0].address@ == addr {
        0
    } else {
        1 + find_address(s.drop_first(), addr)
    }
}

/// The record with one more in-flight connection, saturating at the maximum.
pub open spec fn counter_plus_one(b: BackendServer) -> BackendServer {
    BackendServer {
        connections: if b.connections < u32::MAX { (b.connections + 1) as u32 } else { b.connections },
        ..b
    }
}

/// The record with one in-flight connection fewer, never below zero.
pub open spec fn counter_minus_one(b: BackendServer) -> BackendServer {
    BackendServer {
        connections: if b.connections > 0 { (b.connections - 1) as u32 } else { 0 },
        ..b
    }
}

/// The registry after `increment` of `addr`: the first record under that
/// address gains one connection; nothing changes when no record has it.
pub open spec fn incremented(s: Seq<BackendServer>, addr: Seq<char>) -> Seq<BackendServer> {
    let i = find_address(s, addr);
    if i < s.len() {
        s.update(i, counter_plus_one(s[i]))
    } else {
        s
    }
}

/// The registry after `decrement` of `addr`, clamped at zero.
pub open spec fn decremented(s: Seq<BackendServer>, addr: Seq<char>) -> Seq<BackendServer> {
    let i = find_address(s, addr);
    if i < s.len() {
        s.update(i, counter_minus_one(s[i]))
    } else {
        s
    }
}

pub proof fn lemma_find_address_bounds(s: Seq<BackendServer>, addr: Seq<char>)
    ensures
        0 <= find_address(s, addr) <= s.len(),
        find_address(s, addr) < s.len() ==> s[find_address(s, addr)].address@ == addr,
        forall|j: int| 0 <= j < find_address(s, addr) ==> s[j].address@ != addr,
    decreases s.len(),
{
    if s.len() > 0 && s[0].address@ != addr {
        lemma_find_address_bounds(s.drop_first(), addr);
        assert forall|j: int| 0 <= j < find_address(s, addr) implies s[j].address@ != addr by {
            if j > 0 {
                assert(s[j] == s.drop_first()[j - 1]);
            }
        }
    }
}

proof fn lemma_find_address_is(s: Seq<BackendServer>, addr: Seq<char>, i: int)
    requires
        0 <= i <= s.len(),
        forall|j: int| 0 <= j < i ==> s[j].address@ != addr,
        i == s.len() || s[i].address@ == addr,
    ensures
        find_address(s, addr) == i,
    decreases i,
{
    if i > 0 {
        lemma_find_address_is(s.drop_first(), addr, i - 1);
    }
}

/// Position of the first record registered under `addr`, or the length of
/// the registry when there is none.
pub fn position_of(backends: &Vec<BackendServer>, addr: &String) -> (r: usize)
    ensures
        r == find_address(backends@, addr@),
{
    let mut i: usize = 0;
    while i < backends.len()
        invariant
            i <= backends.len(),
            forall|j: int| 0 <= j < i ==> backends@[j].address@ != addr@,
        decreases backends.len() - i,
    {
        if backends[i].address == *addr {
            proof {
                lemma_find_address_is(backends@, addr@, i as int);
            }
            return i;
        }
        i = i + 1;
    }
    proof {
        lemma_find_address_is(backends@, addr@, i as int);
    }
    i
}

/// A copy of every healthy record, in registration order.
pub fn list_healthy(backends: &Vec<BackendServer>) -> (r: Vec<BackendServer>)
    ensures
        r@ == healthy_of(backends@),
{
    let mut r: Vec<BackendServer> = Vec::new();
    let mut i: usize = 0;
    while i < backends.len()
        invariant
            i <= backends.len(),
            r@ == healthy_of(backends@.subrange(0, i as int)),
        decreases backends.len() - i,
    {
        proof {
            assert(backends@.subrange(0, i + 1).drop_last() =~= backends@.subrange(0, i as int));
        }
        if backends[i].healthy {
            r.push(backends[i].snapshot());
        }
        i = i + 1;
    }
    proof {
        assert(backends@.subrange(0, i as int) =~= backends@);
    }
    r
}

/// Number of healthy records.
pub fn count_healthy(backends: &Vec<BackendServer>) -> (r: usize)
    ensures
        r == healthy_of(backends@).len(),
{
    let mut n: usize = 0;
    let mut i: usize = 0;
    while i < backends.len()
        invariant
            i <= backends.len(),
            n == healthy_of(backends@.subrange(0, i as int)).len(),
            n <= i,
        decreases backends.len() - i,
    {
        proof {
            assert(backends@.subrange(0, i + 1).drop_last() =~= backends@.subrange(0, i as int));
        }
        if backends[i].healthy {
            n = n + 1;
        }
        i = i + 1;
    }
    proof {
        assert(backends@.subrange(0, i as int) =~= backends@);
    }
    n
}

/// Adds one in-flight connection to the first record under `address`.
/// Unknown addresses are ignored; a counter already at its maximum stays there.
pub fn increment(backends: &mut Vec<BackendServer>, address: &str)
    ensures
        final(backends)@ == incremented(old(backends)@, address@),
{
    let key = address.to_owned();
    let i = position_of(backends, &key);
    if i < backends.len() {
        let c = backends[i].connections;
        if c < u32::MAX {
            backends[i].connections = c + 1;
        }
    }
}

/// Removes one in-flight connection from the first record under `address`,
/// never going below zero. Unknown addresses are ignored.
pub fn decrement(backends: &mut Vec<BackendServer>, address: &str)
    ensures
        final(backends)@ == decremented(old(backends)@, address@),
{
    let key = address.to_owned();
    let i = position_of(backends, &key);
    if i < backends.len() {
        let c = backends[i].connections;
        if c > 0 {
            backends[i].connections = c - 1;
        }
    }
}

/// Changing a record's counter keeps the position at which its address is
/// first found.
proof fn lemma_find_address_update(s: Seq<BackendServer>, addr: Seq<char>, i: int, b: BackendServer)
    requires
        0 <= i < s.len(),
        b.address == s[i].address,
    ensures
        find_address(s.update(i, b), addr) == find_address(s, addr),
{
    let t = s.update(i, b);
    lemma_find_address_bounds(s, addr);
    let f = find_address(s, addr);
    assert forall|j: int| 0 <= j < f implies t[j].address@ != addr by {
        assert(t[j].address == s[j].address);
    }
    if f < s.len() {
        assert(t[f].address == s[f].address);
    }
    lemma_find_address_is(t, addr, f);
}

/// An increment followed by a decrement of the same address leaves the
/// registry as it was, unless the counter was already at its maximum (where
/// the increment saturates).
pub proof fn increment_then_decrement(s: Seq<BackendServer>, addr: Seq<char>)
    requires
        0 <= find_address(s, addr) < s.len() ==> s[find_address(s, addr)].connections < u32::MAX,
    ensures
        decremented(incremented(s, addr), addr) == s,
{
    lemma_find_address_bounds(s, addr);
    let i = find_address(s, addr);
    if i < s.len() {
        let t = incremented(s, addr);
        lemma_find_address_update(s, addr, i, counter_plus_one(s[i]));
        assert(decremented(t, addr) =~= s);
    }
}

/// A decrement of a record with no connections leaves it at zero.
pub proof fn decrement_at_zero(s: Seq<BackendServer>, addr: Seq<char>)
    requires
        0 <= find_address(s, addr) < s.len(),
        s[find_address(s, addr)].connections == 0,
    ensures
        decremented(s, addr) == s,
{
    lemma_find_address_bounds(s, addr);
    assert(decremented(s, addr) =~= s);
}

} // verus!
