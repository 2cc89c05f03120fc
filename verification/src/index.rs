//! Uniform index generation and Floyd's algorithm for sampling a fixed
//! number of pairwise-distinct indices from `0..len`.

use vstd::prelude::*;

use crate::source::DrawRecord;
use crate::source::UniformSource;
use crate::source::draw_record_for;

verus! {

use vstd::set_lib::set_int_range;
use vstd::set_lib::lemma_int_range;
use vstd::set_lib::lemma_len_subset;

/// The values of a draw log, in draw order.
pub open spec fn draw_values(d: Seq<DrawRecord>) -> Seq<usize> {
    d.map_values(|rec: DrawRecord| rec.value as usize)
}

/// One step of Floyd's algorithm: candidate `j` was processed and the draw
/// came back as `t`. If `t` already sits in the output, that slot is demoted
/// to hold `j`; either way `t` fills the next slot.
pub open spec fn floyd_insert(prev: Seq<usize>, t: usize, j: usize) -> Seq<usize> {
    if prev.contains(t) {
        prev.update(prev.index_of(t), j).push(t)
    } else {
        prev.push(t)
    }
}

/// The output of Floyd's algorithm after `n` steps over candidates
/// `len - n .. len`, driven by the drawn values `vals` (step `k` consumes
/// `vals[k]`, drawn with bound `len - n + k + 1`).
pub open spec fn floyd(vals: Seq<usize>, len: int, n: int) -> Seq<usize>
    decreases n,
{
    if n <= 0 {
        Seq::empty()
    } else {
        floyd_insert(floyd(vals.take(n - 1), len - 1, n - 1), vals[n - 1], (len - 1) as usize)
    }
}

/// The draws that one run of the sampler over `n` candidates takes:
/// step `k` is served with bound `len - n + k + 1`, its width chosen from
/// that bound's value, and the value drawn lies below the bound.
pub open spec fn sample_draws(d: Seq<DrawRecord>, len: int, n: int) -> bool {
    &&& d.len() == n
    &&& (forall|k: int|
        0 <= k < n ==> (#[trigger] d[k]) == draw_record_for((len - n + k + 1) as nat, d[k].value))
    &&& (forall|k: int| 0 <= k < n ==> (#[trigger] d[k]).value < len - n + k + 1)
}

/// A sequence of `len` pairwise-distinct indices that all lie below `len`
/// covers `{0, ..., len - 1}` exactly: a full sample is a permutation of
/// the whole range.
pub proof fn lemma_full_sample_is_permutation(s: Seq<usize>, len: usize)
    requires
        s.len() == len,
        s.no_duplicates(),
        forall|q: int| 0 <= q < s.len() ==> (#[trigger] s[q]) < len,
    ensures
        s.map_values(|x: usize| x as int).to_set() == set_int_range(0, len as int),
{
    let m = s.map_values(|x: usize| x as int);
    let range = set_int_range(0, len as int);
    assert(m.no_duplicates()) by {
        assert forall|a: int, b: int|
            0 <= a < m.len() && 0 <= b < m.len() && a != b implies m[a] != m[b] by {
            assert(s[a] != s[b]);
        }
    }
    m.unique_seq_to_set();
    lemma_int_range(0, len as int);
    assert(m.to_set().subset_of(range)) by {
        assert forall|x: int| m.to_set().contains(x) implies range.contains(x) by {
            let q = choose|q: int| 0 <= q < m.len() && m[q] == x;
            assert(s[q] < len);
        }
    }
    assert forall|x: int| range.contains(x) implies m.to_set().contains(x) by {
        if !m.to_set().contains(x) {
            let smaller = range.remove(x);
            lemma_int_range(0, len as int);
            assert(m.to_set().subset_of(smaller));
            lemma_len_subset(m.to_set(), smaller);
            assert(false);
        }
    }
    assert(m.to_set() =~= range);
}

/// Cross-width reproducibility: when `len` fits 32-bit capacity, no draw
/// of a sampler run over `[0, len)` is served by the 64-bit operation, and
/// two runs that drew the same values left identical logs and identical
/// outputs — the host's native word size leaves no trace.
pub proof fn lemma_cross_width_reproducible(
    d1: Seq<DrawRecord>,
    d2: Seq<DrawRecord>,
    len: int,
    n: int,
)
    requires
        0 <= n <= len,
        len <= u32::MAX as int,
        sample_draws(d1, len, n),
        sample_draws(d2, len, n),
        draw_values(d1) == draw_values(d2),
    ensures
        forall|k: int| 0 <= k < n ==> !(#[trigger] d1[k]).wide,
        d1 == d2,
        floyd(draw_values(d1), len, n) == floyd(draw_values(d2), len, n),
{
    assert forall|k: int| 0 <= k < n implies !(#[trigger] d1[k]).wide by {
        assert(d1[k] == draw_record_for((len - n + k + 1) as nat, d1[k].value));
    }
    assert(d1 =~= d2) by {
        assert forall|k: int| 0 <= k < d1.len() implies d1[k] == d2[k] by {
            assert(draw_values(d1)[k] == draw_values(d2)[k]);
            assert(draw_values(d1)[k] == d1[k].value as usize);
            assert(draw_values(d2)[k] == d2[k].value as usize);
            assert(d1[k].value < len - n + k + 1 <= usize::MAX + 1);
            assert(d2[k].value < len - n + k + 1 <= usize::MAX + 1);
            assert(d1[k].value as usize == d2[k].value as usize);
            assert(d1[k].value == d2[k].value);
        }
    }
}

/// Returns a uniformly distributed index in `[0, ubound)`.
///
/// The draw is served in 32-bit arithmetic whenever `ubound` fits a `u32`,
/// and in 64-bit arithmetic otherwise, so the record left in the source's
/// log — width included — is a function of `ubound`'s value alone. Two
/// hosts of different native word size therefore ask the source for
/// exactly the same draws.
pub fn gen_index<R: UniformSource + ?Sized>(rng: &mut R, ubound: usize) -> (r: usize)
    requires
        1 <= ubound,
    ensures
        r < ubound,
        final(rng).draw_log() == old(rng).draw_log().push(
            draw_record_for(ubound as nat, r as nat),
        ),
{
    if ubound <= u32::MAX as usize {
        rng.next_u32(ubound as u32) as usize
    } else {
        rng.next_u64(ubound as u64) as usize
    }
}

/// Randomly samples exactly `N` distinct indices from `0..len`, returned
/// in random order (fully shuffled), via Floyd's algorithm: `O(N^2)` time,
/// no allocation beyond the output itself.
///
/// Returns `None` if (and only if) `N > len`, and then consumes no draw.
/// On success the output is exactly `floyd` applied to the values the
/// source handed back, so the result is a function of the drawn values
/// and `(len, N)` alone.
pub fn sample_array<R, const N: usize>(rng: &mut R, len: usize) -> (r: Option<[usize; N]>)
    where
        R: UniformSource + ?Sized,
    ensures
        r is Some <==> N <= len,
        N == 0 ==> r is Some,
        r is None ==> final(rng).draw_log() == old(rng).draw_log(),
        r is Some ==> old(rng).draw_log().is_prefix_of(final(rng).draw_log()),
        r matches Some(out) ==> ({
            let d = final(rng).draw_log().skip(old(rng).draw_log().len() as int);
            &&& sample_draws(d, len as int, N as int)
            &&& out@ == floyd(draw_values(d), len as int, N as int)
            &&& out@.len() == N
            &&& out@.no_duplicates()
            &&& (forall|q: int| 0 <= q < N ==> (#[trigger] out@[q]) < len)
        }),
        r matches Some(out) ==> (N == len ==> out@.map_values(|x: usize| x as int).to_set()
            == set_int_range(0, len as int)),
{
    if N > len {
        return None;
    }
    let ghost base = rng.draw_log();
    let mut indices: [usize; N] = [0; N];
    let mut i: usize = 0;
    while i < N
        invariant
            N <= len,
            i <= N,
            indices@.len() == N,
            base.is_prefix_of(rng.draw_log()),
            rng.draw_log().len() == base.len() + i,
            sample_draws(
                rng.draw_log().skip(base.len() as int),
                len as int - N as int + i as int,
                i as int,
            ),
            indices@.take(i as int) == floyd(
                draw_values(rng.draw_log().skip(base.len() as int)),
                len as int - N as int + i as int,
                i as int,
            ),
            indices@.take(i as int).no_duplicates(),
            forall|q: int| 0 <= q < i ==> (#[trigger] indices@[q]) < len - N + i,
        decreases N - i,
    {
        let ghost pre_log = rng.draw_log();
        let ghost d_old = pre_log.skip(base.len() as int);
        let ghost prev = indices@.take(i as int);
        let j: usize = len - N + i;
        let t: usize = gen_index(rng, j + 1);
        let ghost rec = draw_record_for((j + 1) as nat, t as nat);
        let mut pos: usize = 0;
        while pos < i && indices[pos] != t
            invariant
                pos <= i,
                i <= N,
                indices@.len() == N,
                forall|q: int| 0 <= q < pos ==> (#[trigger] indices@[q]) != t,
            decreases i - pos,
        {
            pos = pos + 1;
        }
        let ghost collided = pos < i;
        if pos < i {
            // the draw collided with slot `pos`: demote that slot to `j`;
            // the current slot absorbs the collision by taking `t` below
            indices[pos] = j;
        }
        indices[i] = t;
        proof {
            let d_new = rng.draw_log().skip(base.len() as int);
            assert(rng.draw_log() == pre_log.push(rec));
            assert(d_new =~= d_old.push(rec));
            assert(base.is_prefix_of(rng.draw_log())) by {
                assert(rng.draw_log().take(base.len() as int) =~= base);
            }
            let vals_new = draw_values(d_new);
            assert(vals_new =~= draw_values(d_old).push(t));
            assert(vals_new.take(i as int) =~= draw_values(d_old));
            let lennow = len as int - N as int + i as int;
            assert(sample_draws(d_new, lennow + 1, i as int + 1)) by {
                assert forall|k: int| 0 <= k < i + 1 implies (#[trigger] d_new[k])
                    == draw_record_for(((lennow + 1) - (i + 1) + k + 1) as nat, d_new[k].value)
                    && d_new[k].value < (lennow + 1) - (i + 1) + k + 1 by {
                    if k < i {
                        assert(d_new[k] == d_old[k]);
                        assert(d_old[k] == draw_record_for(
                            (lennow - i + k + 1) as nat,
                            d_old[k].value,
                        ));
                    } else {
                        assert(d_new[k] == rec);
                    }
                }
            }
            assert(floyd(vals_new, lennow + 1, i as int + 1) == floyd_insert(
                floyd(vals_new.take(i as int), lennow, i as int),
                vals_new[i as int],
                lennow as usize,
            ));
            assert(vals_new[i as int] == t);
            assert(lennow as usize == j);
            assert(floyd(vals_new.take(i as int), lennow, i as int) == prev);
            let cur = indices@.take(i as int + 1);
            if collided {
                assert(prev[pos as int] == t);
                assert(prev.contains(t));
                let idx = prev.index_of(t);
                assert(0 <= idx < prev.len() && prev[idx] == t);
                assert(idx == pos as int);
                assert(cur =~= prev.update(pos as int, j).push(t));
                assert(cur == floyd_insert(prev, t, j));
                assert(cur.no_duplicates()) by {
                    assert forall|a: int, b: int|
                        0 <= a < cur.len() && 0 <= b < cur.len() && a != b implies cur[a]
                        != cur[b] by {
                        assert(forall|q: int| 0 <= q < i ==> (#[trigger] prev[q]) < j);
                        assert(t < j);
                    }
                }
            } else {
                assert(pos == i);
                assert(!prev.contains(t));
                assert(cur =~= prev.push(t));
                assert(cur == floyd_insert(prev, t, j));
                assert(cur.no_duplicates());
            }
            assert(forall|q: int| 0 <= q < i + 1 ==> (#[trigger] indices@[q]) < len - N + i + 1);
        }
        i = i + 1;
    }
    proof {
        assert(indices@.take(N as int) =~= indices@);
        if N == len {
            lemma_full_sample_is_permutation(indices@, len);
        }
    }
    Some(indices)
}

} // verus!
