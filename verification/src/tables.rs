//! Searches in the candidate lists and the checklist.

use vstd::prelude::*;
use crate::addr::SocketAddr;
use crate::candidate::{Candidate, CandidateKind, CandidateView};
use crate::model::{
    awaiting,
    count_same,
    install,
    live_with_addr,
    matching_idxs,
    not_of_local,
    pair_of,
    possible_at,
    redundant_with,
    same_addr_base,
    same_addr_base_raddr,
    socket_with_addr,
    temp_prflx_like,
    with_addr,
};
use crate::pair::{CandidatePair, PairView};
use crate::seqs::{
    first_index,
    keep,
    lemma_first_index_is,
    lemma_views_push,
    lemma_views_remove,
    lemma_views_update,
    views,
};
use crate::stun::TransId;
use crate::time::Instant;

verus! {

/// How many candidates have this kind and address family.
pub fn count_same_kind(cands: &Vec<Candidate>, kind: CandidateKind, ipv6: bool) -> (n: usize)
    ensures
        n == count_same(views(cands@), kind, ipv6),
        n <= cands@.len(),
{
    let mut n: usize = 0;
    let mut i: usize = 0;
    assert(views(cands@).take(0) =~= Seq::<CandidateView>::empty());
    while i < cands.len()
        invariant
            i <= cands@.len(),
            n <= i,
            n == count_same(views(cands@).take(i as int), kind, ipv6),
        decreases cands@.len() - i,
    {
        proof {
            let t = views(cands@).take(i + 1);
            assert(t.drop_last() =~= views(cands@).take(i as int));
            assert(t.last() == cands@[i as int]@);
        }
        if cands[i].kind() == kind && cands[i].addr().is_ipv6() == ipv6 {
            n += 1;
        }
        i += 1;
    }
    assert(views(cands@).take(cands@.len() as int) =~= views(cands@));
    n
}

/// The first live candidate with this address and base.
pub fn find_same_addr_base(cands: &Vec<Candidate>, addr: SocketAddr, base: SocketAddr) -> (i:
    usize)
    ensures
        i == first_index(views(cands@), same_addr_base(addr, base)),
        i <= cands@.len(),
{
    let ghost f = same_addr_base(addr, base);
    let mut i: usize = 0;
    while i < cands.len()
        invariant
            i <= cands@.len(),
            f == same_addr_base(addr, base),
            forall|j: int| 0 <= j < i ==> !f(#[trigger] views(cands@)[j]),
        decreases cands@.len() - i,
    {
        let c = &cands[i];
        if !c.discarded() && c.addr() == addr && c.base() == base {
            proof {
                lemma_first_index_is(views(cands@), f, i as int);
            }
            return i;
        }
        i += 1;
    }
    proof {
        lemma_first_index_is(views(cands@), f, i as int);
    }
    i
}

/// The first candidate with this address, base and related address.
pub fn find_same_addr_base_raddr(
    cands: &Vec<Candidate>,
    addr: SocketAddr,
    base: SocketAddr,
    raddr: Option<SocketAddr>,
) -> (i: usize)
    ensures
        i == first_index(views(cands@), same_addr_base_raddr(addr, base, raddr)),
        i <= cands@.len(),
{
    let ghost f = same_addr_base_raddr(addr, base, raddr);
    let mut i: usize = 0;
    while i < cands.len()
        invariant
            i <= cands@.len(),
            f == same_addr_base_raddr(addr, base, raddr),
            forall|j: int| 0 <= j < i ==> !f(#[trigger] views(cands@)[j]),
        decreases cands@.len() - i,
    {
        let c = &cands[i];
        let same_raddr = match (c.raddr(), raddr) {
            (Some(a), Some(b)) => a == b,
            (None, None) => true,
            _ => false,
        };
        if c.addr() == addr && c.base() == base && same_raddr {
            proof {
                lemma_first_index_is(views(cands@), f, i as int);
            }
            return i;
        }
        i += 1;
    }
    proof {
        lemma_first_index_is(views(cands@), f, i as int);
    }
    i
}

/// The first live candidate with this address.
pub fn find_live_with_addr(cands: &Vec<Candidate>, addr: SocketAddr) -> (i: usize)
    ensures
        i == first_index(views(cands@), live_with_addr(addr)),
        i <= cands@.len(),
{
    let ghost f = live_with_addr(addr);
    let mut i: usize = 0;
    while i < cands.len()
        invariant
            i <= cands@.len(),
            f == live_with_addr(addr),
            forall|j: int| 0 <= j < i ==> !f(#[trigger] views(cands@)[j]),
        decreases cands@.len() - i,
    {
        let c = &cands[i];
        if !c.discarded() && c.addr() == addr {
            proof {
                lemma_first_index_is(views(cands@), f, i as int);
            }
            return i;
        }
        i += 1;
    }
    proof {
        lemma_first_index_is(views(cands@), f, i as int);
    }
    i
}

/// The first candidate with this address.
pub fn find_with_addr(cands: &Vec<Candidate>, addr: SocketAddr) -> (i: usize)
    ensures
        i == first_index(views(cands@), with_addr(addr)),
        i <= cands@.len(),
{
    let ghost f = with_addr(addr);
    let mut i: usize = 0;
    while i < cands.len()
        invariant
            i <= cands@.len(),
            f == with_addr(addr),
            forall|j: int| 0 <= j < i ==> !f(#[trigger] views(cands@)[j]),
        decreases cands@.len() - i,
    {
        if cands[i].addr() == addr {
            proof {
                lemma_first_index_is(views(cands@), f, i as int);
            }
            return i;
        }
        i += 1;
    }
    proof {
        lemma_first_index_is(views(cands@), f, i as int);
    }
    i
}

/// The first host or relayed candidate with this address.
pub fn find_socket(cands: &Vec<Candidate>, addr: SocketAddr) -> (i: usize)
    ensures
        i == first_index(views(cands@), socket_with_addr(addr)),
        i <= cands@.len(),
{
    let ghost f = socket_with_addr(addr);
    let mut i: usize = 0;
    while i < cands.len()
        invariant
            i <= cands@.len(),
            f == socket_with_addr(addr),
            forall|j: int| 0 <= j < i ==> !f(#[trigger] views(cands@)[j]),
        decreases cands@.len() - i,
    {
        let c = &cands[i];
        let k = c.kind();
        if (k == CandidateKind::Host || k == CandidateKind::Relayed) && c.addr() == addr {
            proof {
                lemma_first_index_is(views(cands@), f, i as int);
            }
            return i;
        }
        i += 1;
    }
    proof {
        lemma_first_index_is(views(cands@), f, i as int);
    }
    i
}

/// The first peer-reflexive candidate with the temporary foundation and
/// this address and priority.
pub fn find_temp_prflx(cands: &Vec<Candidate>, addr: SocketAddr, prio: u32) -> (i: usize)
    ensures
        i == first_index(views(cands@), temp_prflx_like(addr, prio)),
        i <= cands@.len(),
{
    let ghost f = temp_prflx_like(addr, prio);
    let mut i: usize = 0;
    while i < cands.len()
        invariant
            i <= cands@.len(),
            f == temp_prflx_like(addr, prio),
            forall|j: int| 0 <= j < i ==> !f(#[trigger] views(cands@)[j]),
        decreases cands@.len() - i,
    {
        let c = &cands[i];
        if c.has_temp_foundation() && c.addr() == addr && c.prio() == prio && c.kind()
            == CandidateKind::PeerReflexive {
            proof {
                lemma_first_index_is(views(cands@), f, i as int);
            }
            return i;
        }
        i += 1;
    }
    proof {
        lemma_first_index_is(views(cands@), f, i as int);
    }
    i
}

/// The positions of the live candidates of the address family that `ipv4`
/// tells.
pub fn matching_indexes(cands: &Vec<Candidate>, ipv4: bool) -> (r: Vec<usize>)
    ensures
        r@ == matching_idxs(views(cands@), ipv4),
        forall|k: int| 0 <= k < r@.len() ==> (#[trigger] r@[k]) < cands@.len(),
{
    let mut r: Vec<usize> = Vec::new();
    let mut i: usize = 0;
    assert(views(cands@).take(0) =~= Seq::<CandidateView>::empty());
    while i < cands.len()
        invariant
            i <= cands@.len(),
            r@ == matching_idxs(views(cands@).take(i as int), ipv4),
            forall|k: int| 0 <= k < r@.len() ==> (#[trigger] r@[k]) < i,
        decreases cands@.len() - i,
    {
        proof {
            let t = views(cands@).take(i + 1);
            assert(t.drop_last() =~= views(cands@).take(i as int));
            assert(t.last() == cands@[i as int]@);
        }
        if !cands[i].discarded() && cands[i].addr().is_ipv4() == ipv4 {
            r.push(i);
        }
        i += 1;
    }
    assert(views(cands@).take(cands@.len() as int) =~= views(cands@));
    r
}

/// The first pair of these two candidates.
pub fn find_pair(pairs: &Vec<CandidatePair>, local_idx: usize, remote_idx: usize) -> (i: usize)
    ensures
        i == first_index(views(pairs@), pair_of(local_idx, remote_idx)),
        i <= pairs@.len(),
{
    let ghost f = pair_of(local_idx, remote_idx);
    let mut i: usize = 0;
    while i < pairs.len()
        invariant
            i <= pairs@.len(),
            f == pair_of(local_idx, remote_idx),
            forall|j: int| 0 <= j < i ==> !f(#[trigger] views(pairs@)[j]),
        decreases pairs@.len() - i,
    {
        if pairs[i].local_idx() == local_idx && pairs[i].remote_idx() == remote_idx {
            proof {
                lemma_first_index_is(views(pairs@), f, i as int);
            }
            return i;
        }
        i += 1;
    }
    proof {
        lemma_first_index_is(views(pairs@), f, i as int);
    }
    i
}

/// The first pair with an unanswered request of this id.
pub fn find_awaiting(pairs: &Vec<CandidatePair>, id: TransId) -> (i: usize)
    ensures
        i == first_index(views(pairs@), awaiting(id)),
        i <= pairs@.len(),
{
    let ghost f = awaiting(id);
    let mut i: usize = 0;
    while i < pairs.len()
        invariant
            i <= pairs@.len(),
            f == awaiting(id),
            forall|j: int| 0 <= j < i ==> !f(#[trigger] views(pairs@)[j]),
        decreases pairs@.len() - i,
    {
        if pairs[i].has_binding_attempt(id) {
            proof {
                lemma_first_index_is(views(pairs@), f, i as int);
            }
            return i;
        }
        i += 1;
    }
    proof {
        lemma_first_index_is(views(pairs@), f, i as int);
    }
    i
}

/// Whether the pairs point at candidates of the two lists.
pub open spec fn in_range(pairs: Seq<PairView>, locals: int, remotes: int) -> bool {
    forall|i: int|
        0 <= i < pairs.len() ==> (#[trigger] pairs[i]).local_idx < locals && pairs[i].remote_idx
            < remotes
}

/// The first pair that is redundant with `p`.
pub fn find_redundant(
    pairs: &Vec<CandidatePair>,
    locals: &Vec<Candidate>,
    remotes: &Vec<Candidate>,
    p: &CandidatePair,
) -> (i: usize)
    requires
        in_range(views(pairs@), locals@.len() as int, remotes@.len() as int),
        p@.local_idx < locals@.len(),
        p@.remote_idx < remotes@.len(),
    ensures
        i == first_index(views(pairs@), redundant_with(views(locals@), views(remotes@), p@)),
        i <= pairs@.len(),
{
    let ghost f = redundant_with(views(locals@), views(remotes@), p@);
    let base = locals[p.local_idx()].base();
    let addr = remotes[p.remote_idx()].addr();
    let mut i: usize = 0;
    while i < pairs.len()
        invariant
            i <= pairs@.len(),
            f == redundant_with(views(locals@), views(remotes@), p@),
            in_range(views(pairs@), locals@.len() as int, remotes@.len() as int),
            p@.local_idx < locals@.len(),
            p@.remote_idx < remotes@.len(),
            base == views(locals@)[p@.local_idx as int].base(),
            addr == views(remotes@)[p@.remote_idx as int].addr,
            forall|j: int| 0 <= j < i ==> !f(#[trigger] views(pairs@)[j]),
        decreases pairs@.len() - i,
    {
        assert(views(pairs@)[i as int] == pairs@[i as int]@);
        let q = &pairs[i];
        if locals[q.local_idx()].base() == base && remotes[q.remote_idx()].addr() == addr {
            proof {
                lemma_first_index_is(views(pairs@), f, i as int);
            }
            return i;
        }
        i += 1;
    }
    proof {
        lemma_first_index_is(views(pairs@), f, i as int);
    }
    i
}

/// Offers the pair `p` to the checklist.
pub fn install_pair(
    pairs: &mut Vec<CandidatePair>,
    locals: &Vec<Candidate>,
    remotes: &Vec<Candidate>,
    p: CandidatePair,
)
    requires
        in_range(views(old(pairs)@), locals@.len() as int, remotes@.len() as int),
        p@.local_idx < locals@.len(),
        p@.remote_idx < remotes@.len(),
    ensures
        views(final(pairs)@) == install(views(locals@), views(remotes@), views(old(pairs)@), p@),
        in_range(views(final(pairs)@), locals@.len() as int, remotes@.len() as int),
{
    let i = find_redundant(pairs, locals, remotes, &p);
    let ghost before = pairs@;
    if i < pairs.len() {
        assert(views(before)[i as int] == before[i as int]@);
        if pairs[i].prio() >= p.prio() {
        } else {
            pairs[i] = p;
            proof {
                lemma_views_update(before, i as int, p);
            }
        }
    } else {
        pairs.push(p);
        proof {
            lemma_views_push(before, p);
        }
    }
}

/// Drops the pairs of the local candidate `local_idx`.
pub fn drop_pairs_of_local(pairs: &mut Vec<CandidatePair>, local_idx: usize)
    ensures
        views(final(pairs)@) == keep(views(old(pairs)@), not_of_local(local_idx)),
{
    let ghost orig = views(pairs@);
    let ghost f = not_of_local(local_idx);
    let ghost mut done: int = 0;
    let mut i: usize = 0;
    proof {
        assert(orig.take(0) =~= Seq::<PairView>::empty());
        assert(orig.skip(0) =~= orig);
        assert(keep(orig.take(0), f) + orig.skip(0) =~= orig);
    }
    while i < pairs.len()
        invariant
            f == not_of_local(local_idx),
            0 <= done <= orig.len(),
            i <= pairs@.len(),
            pairs@.len() - i == orig.len() - done,
            i == keep(orig.take(done), f).len(),
            views(pairs@) == keep(orig.take(done), f) + orig.skip(done),
        decreases pairs@.len() - i,
    {
        proof {
            let t = orig.take(done + 1);
            assert(t.drop_last() =~= orig.take(done));
            assert(t.last() == orig[done]);
            assert(views(pairs@)[i as int] == orig[done]);
            assert(views(pairs@)[i as int] == pairs@[i as int]@);
        }
        if pairs[i].local_idx() != local_idx {
            proof {
                assert(views(pairs@) =~= keep(orig.take(done + 1), f) + orig.skip(done + 1));
            }
            i += 1;
        } else {
            let ghost before = pairs@;
            pairs.remove(i);
            proof {
                lemma_views_remove(before, i as int);
                assert(views(pairs@) =~= keep(orig.take(done + 1), f) + orig.skip(done + 1));
            }
        }
        proof {
            done = done + 1;
        }
    }
    proof {
        assert(orig.take(orig.len() as int) =~= orig);
        assert(orig.skip(orig.len() as int) =~= Seq::<PairView>::empty());
        assert(views(pairs@) =~= keep(orig, f));
    }
}

/// Drops the pairs whose check cannot succeed any more at `now`.
pub fn drop_impossible_pairs(pairs: &mut Vec<CandidatePair>, now: Instant)
    ensures
        views(final(pairs)@) == keep(views(old(pairs)@), possible_at(now)),
{
    let ghost orig = views(pairs@);
    let ghost f = possible_at(now);
    let ghost mut done: int = 0;
    let mut i: usize = 0;
    proof {
        assert(orig.take(0) =~= Seq::<PairView>::empty());
        assert(orig.skip(0) =~= orig);
        assert(keep(orig.take(0), f) + orig.skip(0) =~= orig);
    }
    while i < pairs.len()
        invariant
            f == possible_at(now),
            0 <= done <= orig.len(),
            i <= pairs@.len(),
            pairs@.len() - i == orig.len() - done,
            i == keep(orig.take(done), f).len(),
            views(pairs@) == keep(orig.take(done), f) + orig.skip(done),
        decreases pairs@.len() - i,
    {
        proof {
            let t = orig.take(done + 1);
            assert(t.drop_last() =~= orig.take(done));
            assert(t.last() == orig[done]);
            assert(views(pairs@)[i as int] == orig[done]);
            assert(views(pairs@)[i as int] == pairs@[i as int]@);
        }
        if pairs[i].is_still_possible(now) {
            proof {
                assert(views(pairs@) =~= keep(orig.take(done + 1), f) + orig.skip(done + 1));
            }
            i += 1;
        } else {
            let ghost before = pairs@;
            pairs.remove(i);
            proof {
                lemma_views_remove(before, i as int);
                assert(views(pairs@) =~= keep(orig.take(done + 1), f) + orig.skip(done + 1));
            }
        }
        proof {
            done = done + 1;
        }
    }
    proof {
        assert(orig.take(orig.len() as int) =~= orig);
        assert(orig.skip(orig.len() as int) =~= Seq::<PairView>::empty());
        assert(views(pairs@) =~= keep(orig, f));
    }
}

} // verus!
