//! The fork-join layer: pairwise forces and integration handed out to the
//! threads of the global pool.
//!
//! Each worker adds its rows into a private buffer as long as the particle
//! list; the buffers are then summed, one after the other, into the shared
//! accumulator.  Integer sums do not depend on the order of the terms, so
//! the outcome is the same for every number of workers.
use vstd::prelude::*;
use rayon::iter::{
    IndexedParallelIterator, IntoParallelRefIterator, IntoParallelRefMutIterator, ParallelIterator,
};
use crate::fixed::LIMIT;
use crate::integrator::{advanced, outcomes_of, Integrator};
use crate::pairwise::{
    accumulate_rows, all_zero, band_share, lemma_band_share_bounded, lemma_band_share_empty,
    lemma_band_share_join, lemma_count_fits, lemma_full_band_is_net_force, net_force, sums_are,
    sums_are_net, zero_sums,
};
use crate::particle::{all_valid, Particle};

verus! {

/// Calls `rayon::current_num_threads`, the number of threads of the pool
/// that the caller runs in.  Nothing is claimed of the number.
#[verifier::external_body]
fn pool_size() -> (threads: usize) {
    rayon::current_num_threads()
}

/// Runs `accumulate_rows` once for every buffer, through rayon's
/// `par_iter_mut`, `enumerate` and `for_each`: the buffer at index `t` is
/// handed the rows `t`, `t + len`, `t + 2 * len`, ... where `len` is the
/// number of buffers.  The claim is that each buffer ends as that one call
/// leaves it.
#[verifier::external_body]
fn accumulate_on_workers(particles: &Vec<Particle>, buffers: &mut Vec<Vec<[i128; 2]>>)
    requires
        all_valid(particles@),
        forall|t: int|
            0 <= t < old(buffers)@.len() ==> (#[trigger] old(buffers)@[t])@.len()
                == particles@.len() && all_zero(old(buffers)@[t]@),
    ensures
        final(buffers)@.len() == old(buffers)@.len(),
        forall|t: int|
            0 <= t < final(buffers)@.len() ==> sums_are(
                (#[trigger] final(buffers)@[t])@,
                particles@,
                old(buffers)@.len() as int,
                t,
                t + 1,
            ),
{
    let stride = buffers.len();
    buffers.par_iter_mut().enumerate().for_each(
        |(first, sums)| accumulate_rows(particles, first, stride, sums),
    );
}

/// Runs `advanced` once for every particle and its force, through rayon's
/// `par_iter`, `zip`, `map` and `collect`, which keeps the order of the
/// items.  The claim is that entry `k` of the result is what that one call
/// returns for particle `k`.
#[verifier::external_body]
pub(crate) fn advance_on_workers(
    particles: &Vec<Particle>,
    forces: &Vec<[i128; 2]>,
    dt: i64,
    integrator: Integrator,
) -> (next: Vec<Option<Particle>>)
    requires
        all_valid(particles@),
        forces@.len() == particles@.len(),
        0 < dt <= LIMIT,
    ensures
        outcomes_of(next@, particles@, forces@, dt as int, integrator),
{
    particles.par_iter().zip(forces.par_iter()).map(
        |(p, f)| advanced(p, f, dt, integrator),
    ).collect()
}

/// Makes `workers` buffers of `n` zero vectors each.
fn zero_buffers(workers: usize, n: usize) -> (buffers: Vec<Vec<[i128; 2]>>)
    ensures
        buffers@.len() == workers,
        forall|t: int|
            0 <= t < buffers@.len() ==> (#[trigger] buffers@[t])@.len() == n && all_zero(
                buffers@[t]@,
            ),
{
    let mut buffers: Vec<Vec<[i128; 2]>> = Vec::new();
    let mut t: usize = 0;
    while t < workers
        invariant
            t <= workers,
            buffers@.len() == t,
            forall|u: int|
                0 <= u < buffers@.len() ==> (#[trigger] buffers@[u])@.len() == n && all_zero(
                    buffers@[u]@,
                ),
        decreases workers - t,
    {
        buffers.push(zero_sums(n));
        t += 1;
    }
    buffers
}

/// Adds the buffer of worker `worker` to the running total of the workers
/// before it.
fn add_buffer(
    total: &mut Vec<[i128; 2]>,
    buffer: &Vec<[i128; 2]>,
    Ghost(ps): Ghost<Seq<Particle>>,
    Ghost(stride): Ghost<int>,
    Ghost(worker): Ghost<int>,
)
    requires
        all_valid(ps),
        ps.len() <= usize::MAX,
        0 <= worker < stride,
        sums_are(old(total)@, ps, stride, 0, worker),
        sums_are(buffer@, ps, stride, worker, worker + 1),
    ensures
        sums_are(final(total)@, ps, stride, 0, worker + 1),
{
    let n = total.len();
    let mut k: usize = 0;
    while k < n
        invariant
            n == ps.len(),
            k <= n,
            all_valid(ps),
            0 <= worker < stride,
            total@.len() == n,
            sums_are(buffer@, ps, stride, worker, worker + 1),
            forall|m: int|
                k <= m < n ==> {
                    &&& (#[trigger] total@[m])[0] == band_share(
                        ps,
                        m,
                        stride,
                        0,
                        worker,
                        n as int,
                        0,
                    )
                    &&& total@[m][1] == band_share(ps, m, stride, 0, worker, n as int, 1)
                },
            forall|m: int|
                0 <= m < k ==> {
                    &&& (#[trigger] total@[m])[0] == band_share(
                        ps,
                        m,
                        stride,
                        0,
                        worker + 1,
                        n as int,
                        0,
                    )
                    &&& total@[m][1] == band_share(ps, m, stride, 0, worker + 1, n as int, 1)
                },
        decreases n - k,
    {
        proof {
            lemma_band_share_join(ps, k as int, stride, 0, worker, worker + 1, n as int, 0);
            lemma_band_share_join(ps, k as int, stride, 0, worker, worker + 1, n as int, 1);
            lemma_band_share_bounded(ps, k as int, stride, 0, worker + 1, n as int, 0);
            lemma_band_share_bounded(ps, k as int, stride, 0, worker + 1, n as int, 1);
            lemma_count_fits(n as int);
        }
        let have = total[k];
        let more = buffer[k];
        total.set(k, [have[0] + more[0], have[1] + more[1]]);
        k += 1;
    }
}

/// Computes the net force on every particle with the rows of the pairwise
/// computation spread over the threads of the pool.  `sums` must start out
/// as zeros.  The result is the one that `net_forces` computes.
pub fn parallel_net_forces(particles: &Vec<Particle>, sums: &mut Vec<[i128; 2]>)
    requires
        all_valid(particles@),
        old(sums)@.len() == particles@.len(),
        all_zero(old(sums)@),
    ensures
        sums_are_net(final(sums)@, particles@),
{
    let threads = pool_size();
    let workers: usize = if threads == 0 {
        1
    } else {
        threads
    };
    let n = particles.len();
    let ghost ps = particles@;
    let mut buffers = zero_buffers(workers, n);
    accumulate_on_workers(particles, &mut buffers);
    proof {
        assert forall|k: int| 0 <= k < n implies (#[trigger] sums@[k])[0] == band_share(
            ps,
            k,
            workers as int,
            0,
            0,
            n as int,
            0,
        ) && sums@[k][1] == band_share(ps, k, workers as int, 0, 0, n as int, 1) by {
            lemma_band_share_empty(ps, k, workers as int, 0, n as int, 0);
            lemma_band_share_empty(ps, k, workers as int, 0, n as int, 1);
        }
    }
    let mut t: usize = 0;
    while t < workers
        invariant
            t <= workers,
            n == ps.len(),
            ps == particles@,
            all_valid(ps),
            buffers@.len() == workers,
            forall|u: int|
                0 <= u < buffers@.len() ==> sums_are(
                    (#[trigger] buffers@[u])@,
                    ps,
                    workers as int,
                    u,
                    u + 1,
                ),
            sums_are(sums@, ps, workers as int, 0, t as int),
        decreases workers - t,
    {
        add_buffer(sums, &buffers[t], Ghost(ps), Ghost(workers as int), Ghost(t as int));
        t += 1;
    }
    proof {
        assert forall|k: int| 0 <= k < n implies (#[trigger] sums@[k])[0] == net_force(ps, k, 0)
            && sums@[k][1] == net_force(ps, k, 1) by {
            lemma_full_band_is_net_force(ps, k, workers as int, 0);
            lemma_full_band_is_net_force(ps, k, workers as int, 1);
        }
    }
}

} // verus!
