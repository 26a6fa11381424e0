//! The particle population as a whole: one tick over every particle, and
//! what splitting that tick between workers leaves unchanged.
use crate::coord::{Coord, ONE};
use crate::frame::{all_wf, lemma_occupancy_of_split, occupied};
use crate::particle::{due_for_respawn, stepped, Param, Particle};
use rand::rngs::StdRng;
use vstd::prelude::*;

verus! {

/// Every particle after one tick, the `i`-th respawning (where due) at
/// `fresh[i]`.
pub open spec fn ticked(ps: Seq<Particle>, param: Param, fresh: Seq<Coord>) -> Seq<Particle> {
    Seq::new(ps.len(), |i: int| stepped(ps[i], param, fresh[i]))
}

/// Ticks every particle in turn on one thread; each respawn draws its point
/// from `rng`. The population keeps its size and order.
pub fn update_all(particles: &mut Vec<Particle>, param: &Param, rng: &mut StdRng)
    requires
        param.wf(),
        all_wf(old(particles)@, *param),
    ensures
        final(particles)@.len() == old(particles)@.len(),
        all_wf(final(particles)@, *param),
        forall|i: int|
            0 <= i < old(particles)@.len() ==> #[trigger] final(particles)@[i] == stepped(
                old(particles)@[i],
                *param,
                final(particles)@[i].coord,
            ),
        forall|i: int|
            0 <= i < old(particles)@.len() && due_for_respawn(#[trigger] old(particles)@[i])
                ==> -ONE <= final(particles)@[i].coord.x < ONE
                && -ONE <= final(particles)@[i].coord.y < ONE,
        (forall|i: int|
            0 <= i < old(particles)@.len() ==> !due_for_respawn(#[trigger] old(particles)@[i]))
            ==> *final(rng) == *old(rng),
{
    let mut i: usize = 0;
    while i < particles.len()
        invariant
            i <= particles.len(),
            param.wf(),
            particles@.len() == old(particles)@.len(),
            all_wf(particles@, *param),
            forall|k: int|
                0 <= k < i ==> #[trigger] particles@[k] == stepped(
                    old(particles)@[k],
                    *param,
                    particles@[k].coord,
                ),
            forall|k: int| i <= k < particles@.len() ==> #[trigger] particles@[k] == old(
                particles,
            )@[k],
            forall|k: int|
                0 <= k < i && due_for_respawn(#[trigger] old(particles)@[k]) ==> -ONE
                    <= particles@[k].coord.x < ONE && -ONE <= particles@[k].coord.y < ONE,
            (forall|k: int|
                0 <= k < old(particles)@.len() ==> !due_for_respawn(
                    #[trigger] old(particles)@[k],
                )) ==> *rng == *old(rng),
        decreases particles.len() - i,
    {
        let mut p = particles[i];
        p.update(param, rng);
        particles[i] = p;
        i = i + 1;
    }
}

/// Splitting the particles between workers, each ticking its own share with
/// the same respawn points, gives the same particles as one worker ticking
/// them all, and so the same occupied pixels: those of one share together
/// with those of the other.
pub proof fn lemma_workers_agree(
    ps1: Seq<Particle>,
    ps2: Seq<Particle>,
    fresh1: Seq<Coord>,
    fresh2: Seq<Coord>,
    param: Param,
)
    requires
        ps1.len() == fresh1.len(),
        ps2.len() == fresh2.len(),
    ensures
        ticked(ps1 + ps2, param, fresh1 + fresh2) == ticked(ps1, param, fresh1) + ticked(
            ps2,
            param,
            fresh2,
        ),
        occupied(ticked(ps1 + ps2, param, fresh1 + fresh2), param) == occupied(
            ticked(ps1, param, fresh1),
            param,
        ).union(occupied(ticked(ps2, param, fresh2), param)),
{
    let whole = ticked(ps1 + ps2, param, fresh1 + fresh2);
    let parts = ticked(ps1, param, fresh1) + ticked(ps2, param, fresh2);
    assert forall|i: int| 0 <= i < whole.len() implies whole[i] == parts[i] by {
        if i < ps1.len() {
            assert((ps1 + ps2)[i] == ps1[i]);
            assert((fresh1 + fresh2)[i] == fresh1[i]);
        } else {
            assert((ps1 + ps2)[i] == ps2[i - ps1.len()]);
            assert((fresh1 + fresh2)[i] == fresh2[i - ps1.len()]);
        }
    }
    assert(whole =~= parts);
    lemma_occupancy_of_split(ticked(ps1, param, fresh1), ticked(ps2, param, fresh2), param);
}

/// Each worker's share after one tick, the `k`-th ticked with the respawn
/// points `fresh[k]`.
pub open spec fn ticked_shares(
    shares: Seq<Seq<Particle>>,
    param: Param,
    fresh: Seq<Seq<Coord>>,
) -> Seq<Seq<Particle>> {
    Seq::new(shares.len(), |k: int| ticked(shares[k], param, fresh[k]))
}

/// The pixels that some share occupies.
pub open spec fn occupied_by_any(shares: Seq<Seq<Particle>>, param: Param) -> Set<int> {
    Set::new(
        |i: int| exists|k: int| 0 <= k < shares.len() && #[trigger] occupied(shares[k], param).contains(i),
    )
}

/// Any number of workers, each ticking its own share of the particles with
/// that share's respawn points, give the same particles as one worker
/// ticking them all in the same order, and so the same occupied pixels:
/// those that some worker's share occupies.
pub proof fn lemma_n_workers_agree(shares: Seq<Seq<Particle>>, fresh: Seq<Seq<Coord>>, param: Param)
    requires
        shares.len() == fresh.len(),
        forall|k: int| 0 <= k < shares.len() ==> #[trigger] shares[k].len() == fresh[k].len(),
    ensures
        shares.flatten().len() == fresh.flatten().len(),
        ticked(shares.flatten(), param, fresh.flatten()) == ticked_shares(
            shares,
            param,
            fresh,
        ).flatten(),
        occupied(ticked(shares.flatten(), param, fresh.flatten()), param) == occupied_by_any(
            ticked_shares(shares, param, fresh),
            param,
        ),
    decreases shares.len(),
{
    let parts = ticked_shares(shares, param, fresh);
    if shares.len() == 0 {
        assert(ticked(shares.flatten(), param, fresh.flatten()) =~= parts.flatten());
        assert(occupied(Seq::<Particle>::empty(), param) =~= Set::<int>::empty());
        assert(occupied_by_any(parts, param) =~= Set::<int>::empty());
    } else {
        let rest = shares.drop_first();
        let rest_fresh = fresh.drop_first();
        assert forall|k: int| 0 <= k < rest.len() implies #[trigger] rest[k].len()
            == rest_fresh[k].len() by {
            assert(rest[k] == shares[k + 1]);
            assert(rest_fresh[k] == fresh[k + 1]);
        }
        lemma_n_workers_agree(rest, rest_fresh, param);
        assert(shares[0].len() == fresh[0].len());
        lemma_workers_agree(
            shares.first(),
            rest.flatten(),
            fresh.first(),
            rest_fresh.flatten(),
            param,
        );
        let rest_parts = ticked_shares(rest, param, rest_fresh);
        assert(parts.drop_first() =~= rest_parts);
        let first = ticked(shares.first(), param, fresh.first());
        assert(parts.first() == first);
        let whole = occupied(ticked(shares.flatten(), param, fresh.flatten()), param);
        assert forall|i: int| whole.contains(i) implies occupied_by_any(parts, param).contains(
            i,
        ) by {
            if occupied(first, param).contains(i) {
                assert(occupied(parts[0], param).contains(i));
            } else {
                let k = choose|k: int|
                    0 <= k < rest_parts.len() && #[trigger] occupied(
                        rest_parts[k],
                        param,
                    ).contains(i);
                assert(parts[k + 1] == rest_parts[k]);
                assert(occupied(parts[k + 1], param).contains(i));
            }
        }
        assert forall|i: int| occupied_by_any(parts, param).contains(i) implies whole.contains(
            i,
        ) by {
            let k = choose|k: int|
                0 <= k < parts.len() && #[trigger] occupied(parts[k], param).contains(i);
            if k > 0 {
                assert(rest_parts[k - 1] == parts[k]);
                assert(occupied(rest_parts[k - 1], param).contains(i));
                assert(occupied_by_any(rest_parts, param).contains(i));
            }
        }
        assert(whole =~= occupied_by_any(parts, param));
    }
}

} // verus!
