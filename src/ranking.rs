use vstd::prelude::*;

verus! {

/// Position `i` ranks ahead of position `j`: a higher score, or an equal
/// score and an earlier position.
pub open spec fn ranks_before(scores: Seq<u64>, i: int, j: int) -> bool {
    scores[i] > scores[j] || (scores[i] == scores[j] && i < j)
}

/// `idx` lists the first `k` positions of `scores` from best to worst:
/// distinct, in bounds, in rank order, and ahead of every position left out.
pub open spec fn is_rank_prefix(scores: Seq<u64>, idx: Seq<usize>, k: nat) -> bool {
    &&& idx.len() == k
    &&& forall|r: int| 0 <= r < idx.len() ==> idx[r] < scores.len()
    &&& forall|r: int, s: int| 0 <= r < s < idx.len() ==> ranks_before(scores, idx[r] as int, idx[s] as int)
    &&& forall|r: int, j: int|
        0 <= r < idx.len() && 0 <= j < scores.len() && !idx.contains(j as usize) ==> ranks_before(
            scores,
            idx[r] as int,
            j,
        )
}

pub open spec fn min_nat(a: nat, b: nat) -> nat {
    if a < b {
        a
    } else {
        b
    }
}

/// The positions of the `limit` best scores, best first; equal scores keep
/// their order.
pub fn rank_order(scores: &Vec<u64>, limit: usize) -> (r: Vec<usize>)
    ensures
        is_rank_prefix(scores@, r@, min_nat(limit as nat, scores@.len())),
{
    let n = scores.len();
    let k = if limit < n { limit } else { n };
    let mut picked: Vec<bool> = Vec::new();
    let mut t: usize = 0;
    while t < n
        invariant
            t <= n,
            n == scores@.len(),
            picked@.len() == t,
            forall|j: int| 0 <= j < t ==> !picked@[j],
        decreases n - t,
    {
        picked.push(false);
        t = t + 1;
    }
    let mut out: Vec<usize> = Vec::new();
    // the positions not taken yet
    let ghost mut free: Set<int> = vstd::set_lib::set_int_range(0, n as int);
    proof {
        vstd::set_lib::lemma_int_range(0, n as int);
    }
    while out.len() < k
        invariant
            k <= n,
            free.finite(),
            free.len() == n - out@.len(),
            forall|j: int| free.contains(j) <==> 0 <= j < n && !picked@[j],
            n == scores@.len(),
            picked@.len() == n,
            out@.len() <= k,
            forall|j: int| 0 <= j < n ==> (picked@[j] <==> out@.contains(j as usize)),
            forall|r: int| 0 <= r < out@.len() ==> out@[r] < n,
            forall|r: int, s: int|
                0 <= r < s < out@.len() ==> ranks_before(scores@, out@[r] as int, out@[s] as int),
            forall|r: int, j: int|
                0 <= r < out@.len() && 0 <= j < n && !picked@[j] ==> ranks_before(
                    scores@,
                    out@[r] as int,
                    j,
                ),
        decreases k - out@.len(),
    {
        proof {
            vstd::set_lib::lemma_set_empty_equivalency_len(free);
        }
        let mut best: usize = 0;
        let mut found = false;
        let mut j: usize = 0;
        while j < n
            invariant
                j <= n,
                n == scores@.len(),
                picked@.len() == n,
                found ==> best < j && !picked@[best as int],
                !found ==> forall|q: int| 0 <= q < j ==> picked@[q],
                found ==> forall|q: int|
                    0 <= q < j && !picked@[q] && q != best ==> ranks_before(scores@, best as int, q),
            decreases n - j,
        {
            if !picked[j] {
                if !found || scores[j] > scores[best] {
                    best = j;
                    found = true;
                }
            }
            j = j + 1;
        }
        proof {
            let w = choose|w: int| free.contains(w);
            assert(0 <= w < n && !picked@[w]);
            free = free.remove(best as int);
        }
        let ghost before = out@;
        out.push(best);
        picked.set(best, true);
        proof {
            assert forall|q: int| 0 <= q < n implies (picked@[q] <==> out@.contains(q as usize)) by {
                if q == best {
                    assert(out@[out@.len() - 1] == best);
                } else {
                    if out@.contains(q as usize) {
                        let w = choose|w: int| 0 <= w < out@.len() && out@[w] == q as usize;
                        assert(w < before.len());
                        assert(before.contains(q as usize));
                    }
                    if before.contains(q as usize) {
                        let w = choose|w: int| 0 <= w < before.len() && before[w] == q as usize;
                        assert(out@[w] == q as usize);
                    }
                }
            }
        }
    }
    out
}

} // verus!
