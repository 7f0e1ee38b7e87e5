//! Ranking the animals by their votes.

use vstd::prelude::*;
use crate::animal::{animal_views, Animal};
use crate::model::{
    is_ranking, lemma_place_of, names_distinct, place_of, ranks_before, AnimalView,
};

verus! {

/// What the sort keeps true of the list `cur` while it works on the animals
/// of `src`: both hold the same animals, no name stands twice, and two animals
/// with equal votes stand in the order in which they were registered.
pub open spec fn rearranged(cur: Seq<AnimalView>, src: Seq<AnimalView>) -> bool {
    &&& cur.len() == src.len()
    &&& names_distinct(cur)
    &&& forall|k: int| 0 <= k < cur.len() ==> src.contains(#[trigger] cur[k])
    &&& forall|k: int| 0 <= k < src.len() ==> cur.contains(#[trigger] src[k])
    &&& forall|p: int, q: int|
        0 <= p < q < cur.len() && (#[trigger] cur[p]).votes == (#[trigger] cur[q]).votes
            ==> place_of(src, cur[p].name) < place_of(src, cur[q].name)
}

/// A list without repeated names is a rearrangement of itself.
pub proof fn lemma_rearranged_start(src: Seq<AnimalView>)
    requires
        names_distinct(src),
    ensures
        rearranged(src, src),
{
    assert forall|p: int, q: int|
        0 <= p < q < src.len() && (#[trigger] src[p]).votes == (
        #[trigger] src[q]).votes implies place_of(src, src[p].name) < place_of(
        src,
        src[q].name,
    ) by {
        lemma_place_of(src, p);
        lemma_place_of(src, q);
    }
}

/// Exchanging two neighbours with different votes keeps a rearrangement.
pub proof fn lemma_rearranged_swap(cur: Seq<AnimalView>, src: Seq<AnimalView>, j: int)
    requires
        rearranged(cur, src),
        0 <= j,
        j + 1 < cur.len(),
        cur[j].votes != cur[j + 1].votes,
    ensures
        rearranged(cur.update(j, cur[j + 1]).update(j + 1, cur[j]), src),
{
    let next = cur.update(j, cur[j + 1]).update(j + 1, cur[j]);
    let back = |k: int|
        if k == j {
            j + 1
        } else if k == j + 1 {
            j
        } else {
            k
        };
    assert forall|k: int| 0 <= k < next.len() implies #[trigger] next[k] == cur[back(k)] by {}
    assert forall|a: int, b: int| 0 <= a < b < next.len() implies (#[trigger] next[a]).name != (
    #[trigger] next[b]).name by {
        let a0 = back(a);
        let b0 = back(b);
        if a0 < b0 {
            assert(cur[a0].name != cur[b0].name);
        } else {
            assert(cur[b0].name != cur[a0].name);
        }
    }
    assert forall|k: int| 0 <= k < next.len() implies src.contains(#[trigger] next[k]) by {
        assert(src.contains(cur[back(k)]));
    }
    assert forall|k: int| 0 <= k < src.len() implies next.contains(#[trigger] src[k]) by {
        assert(cur.contains(src[k]));
        let at = choose|at: int| 0 <= at < cur.len() && cur[at] == src[k];
        assert(next[back(at)] == src[k]);
    }
    assert forall|p: int, q: int|
        0 <= p < q < next.len() && (#[trigger] next[p]).votes == (
        #[trigger] next[q]).votes implies place_of(src, next[p].name) < place_of(
        src,
        next[q].name,
    ) by {
        let pb = back(p);
        let qb = back(q);
        assert(cur[pb].votes == cur[qb].votes);
        assert(pb < qb);
    }
}

/// Ranks the animals in place: the one with the most votes comes first, and
/// of two with equal votes the one that stood earlier stays earlier.
pub fn rank(animals: &mut Vec<Animal>)
    requires
        names_distinct(animal_views(old(animals)@)),
    ensures
        is_ranking(animal_views(final(animals)@), animal_views(old(animals)@)),
{
    let ghost src = animal_views(animals@);
    let len: usize = animals.len();
    proof {
        lemma_rearranged_start(src);
    }
    let mut i: usize = 0;
    while i < len
        invariant
            i <= len,
            len == animals.len(),
            rearranged(animal_views(animals@), src),
            forall|p: int, q: int|
                len - i <= p < q < len ==> (#[trigger] animals[p]).votes >= (
                #[trigger] animals[q]).votes,
            forall|p: int, q: int|
                0 <= p < len - i <= q < len ==> (#[trigger] animals[p]).votes >= (
                #[trigger] animals[q]).votes,
        decreases len - i,
    {
        let mut j: usize = 0;
        while j < len - i - 1
            invariant
                i < len,
                j <= len - i - 1,
                len == animals.len(),
                rearranged(animal_views(animals@), src),
                forall|p: int, q: int|
                    len - i <= p < q < len ==> (#[trigger] animals[p]).votes >= (
                    #[trigger] animals[q]).votes,
                forall|p: int, q: int|
                    0 <= p < len - i <= q < len ==> (#[trigger] animals[p]).votes >= (
                    #[trigger] animals[q]).votes,
                forall|p: int| 0 <= p <= j ==> (#[trigger] animals[p]).votes >= animals[j as int].votes,
            decreases len - i - 1 - j,
        {
            if animals[j].votes < animals[j + 1].votes {
                let ghost cur = animal_views(animals@);
                let earlier = animals[j].clone();
                let later = animals[j + 1].clone();
                animals[j] = later;
                animals[j + 1] = earlier;
                proof {
                    let jj = j as int;
                    assert(animal_views(animals@) =~= cur.update(jj, cur[jj + 1]).update(
                        jj + 1,
                        cur[jj],
                    ));
                    lemma_rearranged_swap(cur, src, jj);
                }
            }
            j += 1;
        }
        i += 1;
    }
    proof {
        let out = animal_views(animals@);
        assert forall|p: int, q: int| 0 <= p < q < out.len() implies ranks_before(
            src,
            #[trigger] out[p],
            #[trigger] out[q],
        ) by {
            assert(animals[p].votes >= animals[q].votes);
        }
    }
}

} // verus!
