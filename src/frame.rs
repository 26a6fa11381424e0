//! The frame buffer: the trail fade, the full clear, and the composition of
//! particle writes, last write winning.
use crate::color::{hsv_to_rgb, packed, u32_to_color, unpacked, Rgb, FULL};
use crate::coord::pixel_index;
use crate::particle::{lifetime_hue, Param, Particle};
use vstd::prelude::*;

verus! {

/// `v - step`, held at 0.
pub open spec fn sat_sub(v: int, step: int) -> int {
    if v >= step {
        v - step
    } else {
        0
    }
}

/// `v + step`, held at 255.
pub open spec fn sat_add(v: int, step: int) -> int {
    if v + step <= 255 {
        v + step
    } else {
        255
    }
}

/// One fade of a colour: red and green lose `step`, blue gains it, each
/// channel held at its bound.
pub open spec fn faded(c: Rgb, step: int) -> Rgb {
    Rgb { r: sat_sub(c.r as int, step) as u8, g: sat_sub(c.g as int, step) as u8, b: sat_add(c.b as int, step) as u8 }
}

/// One fade of a packed pixel; the unused top byte comes out zero.
pub open spec fn faded_pixel(n: u32, step: u8) -> u32 {
    packed(faded(unpacked(n as int), step as int)) as u32
}

/// A pixel after `k` fades.
pub open spec fn faded_times(n: u32, step: u8, k: nat) -> u32
    decreases k,
{
    if k == 0 {
        n
    } else {
        faded_pixel(faded_times(n, step, (k - 1) as nat), step)
    }
}

/// Packed colour of a particle, as `Particle::colorize` gives it.
pub open spec fn particle_color(p: Particle, param: Param) -> u32 {
    packed(
        hsv_to_rgb(
            lifetime_hue(p.lifetime as int, param.max_lifetime as int),
            FULL as int,
            FULL as int,
        ),
    ) as u32
}

/// The buffer after each particle of `ps`, in order, has written its colour
/// at its pixel: a later write to a pixel replaces an earlier one.
pub open spec fn composed(buf: Seq<u32>, ps: Seq<Particle>, param: Param) -> Seq<u32>
    decreases ps.len(),
{
    if ps.len() == 0 {
        buf
    } else {
        let p = ps.last();
        composed(buf, ps.drop_last(), param).update(
            pixel_index(p.coord, param.width as int, param.height as int),
            particle_color(p, param),
        )
    }
}

/// The pixels that some particle of `ps` writes.
pub open spec fn occupied(ps: Seq<Particle>, param: Param) -> Set<int> {
    Set::new(
        |i: int|
            exists|j: int|
                0 <= j < ps.len() && #[trigger] pixel_index(
                    ps[j].coord,
                    param.width as int,
                    param.height as int,
                ) == i,
    )
}

/// Every particle of `ps` is well formed.
pub open spec fn all_wf(ps: Seq<Particle>, param: Param) -> bool {
    forall|j: int| 0 <= j < ps.len() ==> #[trigger] ps[j].wf(param)
}

proof fn lemma_unpack_packed(c: Rgb)
    ensures
        unpacked(packed(c)) == c,
        0 <= packed(c) < 0x0100_0000,
{
    let (r, g, b) = (c.r as int, c.g as int, c.b as int);
    assert((r * 65536 + g * 256 + b) / 65536 == r);
    assert((r * 65536 + g * 256 + b) / 256 == r * 256 + g);
    assert((r * 256 + g) % 256 == g);
    assert((r * 65536 + g * 256 + b) % 256 == b);
}

/// Fades one packed pixel: red and green lose `step`, blue gains it, each
/// channel held at its bound; the top byte is cleared.
pub fn fade_pixel(n: u32, step: u8) -> (r: u32)
    ensures
        r == faded_pixel(n, step),
        r as int == packed(faded(unpacked(n as int), step as int)),
{
    let c = u32_to_color(n);
    let f = Rgb { r: c.r.saturating_sub(step), g: c.g.saturating_sub(step), b: c.b.saturating_add(step) };
    f.to_u32()
}

/// Applies one fade to every pixel of the buffer.
pub fn fade_buffer(buffer: &mut Vec<u32>, step: u8)
    ensures
        final(buffer)@.len() == old(buffer)@.len(),
        forall|i: int|
            0 <= i < old(buffer)@.len() ==> #[trigger] final(buffer)@[i] == faded_pixel(
                old(buffer)@[i],
                step,
            ),
{
    let mut i: usize = 0;
    while i < buffer.len()
        invariant
            i <= buffer.len(),
            buffer@.len() == old(buffer)@.len(),
            forall|k: int| 0 <= k < i ==> #[trigger] buffer@[k] == faded_pixel(old(buffer)@[k], step),
            forall|k: int| i <= k < buffer@.len() ==> #[trigger] buffer@[k] == old(buffer)@[k],
        decreases buffer.len() - i,
    {
        let v = fade_pixel(buffer[i], step);
        buffer[i] = v;
        i = i + 1;
    }
}

/// Sets every pixel of the buffer to black.
pub fn clear_buffer(buffer: &mut Vec<u32>)
    ensures
        final(buffer)@.len() == old(buffer)@.len(),
        forall|i: int| 0 <= i < old(buffer)@.len() ==> #[trigger] final(buffer)@[i] == 0,
{
    let mut i: usize = 0;
    while i < buffer.len()
        invariant
            i <= buffer.len(),
            buffer@.len() == old(buffer)@.len(),
            forall|k: int| 0 <= k < i ==> #[trigger] buffer@[k] == 0,
        decreases buffer.len() - i,
    {
        buffer[i] = 0;
        i = i + 1;
    }
}

/// Writes each particle's colour at its pixel, in the order of `particles`.
pub fn write_particles(buffer: &mut Vec<u32>, particles: &Vec<Particle>, param: &Param)
    requires
        param.wf(),
        old(buffer)@.len() == param.width * param.height,
        all_wf(particles@, *param),
    ensures
        final(buffer)@ == composed(old(buffer)@, particles@, *param),
{
    let mut i: usize = 0;
    while i < particles.len()
        invariant
            i <= particles.len(),
            param.wf(),
            buffer@.len() == param.width * param.height,
            all_wf(particles@, *param),
            buffer@ == composed(old(buffer)@, particles@.take(i as int), *param),
        decreases particles.len() - i,
    {
        let p = &particles[i];
        let k = p.to_coord(param);
        let c = p.colorize(param);
        proof {
            lemma_unpack_packed(
                hsv_to_rgb(
                    lifetime_hue(p.lifetime as int, param.max_lifetime as int),
                    FULL as int,
                    FULL as int,
                ),
            );
            assert(particles@.take(i + 1).drop_last() == particles@.take(i as int));
        }
        buffer[k] = c;
        i = i + 1;
    }
    assert(particles@.take(particles@.len() as int) == particles@);
}

/// Fading is idempotent at saturation: a red or green channel at 0 stays at
/// 0, and a blue channel at 255 stays at 255, however many fades follow;
/// no channel wraps around.
pub proof fn lemma_fade_saturated(n: u32, step: u8, k: nat)
    ensures
        unpacked(n as int).r == 0 ==> unpacked(faded_times(n, step, k) as int).r == 0,
        unpacked(n as int).g == 0 ==> unpacked(faded_times(n, step, k) as int).g == 0,
        unpacked(n as int).b == 255 ==> unpacked(faded_times(n, step, k) as int).b == 255,
        k > 0 ==> faded_times(n, step, k) < 0x0100_0000,
    decreases k,
{
    if k > 0 {
        let prev = faded_times(n, step, (k - 1) as nat);
        lemma_fade_saturated(n, step, (k - 1) as nat);
        lemma_unpack_packed(faded(unpacked(prev as int), step as int));
    }
}

/// Composition changes only occupied pixels: every other pixel keeps its
/// value, and an occupied pixel holds the colour of a particle that maps to
/// it.
pub proof fn lemma_composed_writes_occupied(buf: Seq<u32>, ps: Seq<Particle>, param: Param)
    requires
        param.wf(),
        buf.len() == param.width * param.height,
        all_wf(ps, param),
    ensures
        composed(buf, ps, param).len() == buf.len(),
        forall|i: int|
            0 <= i < buf.len() && !occupied(ps, param).contains(i) ==> #[trigger] composed(
                buf,
                ps,
                param,
            )[i] == buf[i],
        forall|i: int|
            #![trigger occupied(ps, param).contains(i)]
            occupied(ps, param).contains(i) ==> 0 <= i < buf.len() && exists|j: int|
                0 <= j < ps.len() && pixel_index(
                    ps[j].coord,
                    param.width as int,
                    param.height as int,
                ) == i && composed(buf, ps, param)[i] == particle_color(ps[j], param),
    decreases ps.len(),
{
    if ps.len() > 0 {
        let rest = ps.drop_last();
        let p = ps.last();
        let k = pixel_index(p.coord, param.width as int, param.height as int);
        assert(all_wf(rest, param));
        lemma_composed_writes_occupied(buf, rest, param);
        assert(p.wf(param));
        crate::coord::lemma_pixel_index_in_bounds(p.coord, param.width as int, param.height as int);
        assert forall|i: int|
            0 <= i < buf.len() && !occupied(ps, param).contains(i) implies #[trigger] composed(
                buf,
                ps,
                param,
            )[i] == buf[i] by {
            if occupied(rest, param).contains(i) {
                let j = choose|j: int|
                    0 <= j < rest.len() && #[trigger] pixel_index(
                        rest[j].coord,
                        param.width as int,
                        param.height as int,
                    ) == i;
                assert(ps[j] == rest[j]);
            }
            assert(pixel_index(ps[ps.len() - 1].coord, param.width as int, param.height as int)
                == k);
        }
        assert forall|i: int| #[trigger]
            occupied(ps, param).contains(i) implies 0 <= i < buf.len() && exists|j: int|
                0 <= j < ps.len() && pixel_index(
                    ps[j].coord,
                    param.width as int,
                    param.height as int,
                ) == i && composed(buf, ps, param)[i] == particle_color(ps[j], param) by {
            let last = ps.len() - 1;
            if i == k {
                assert(ps[last] == p);
                assert(pixel_index(ps[last].coord, param.width as int, param.height as int) == i
                    && composed(buf, ps, param)[i] == particle_color(ps[last], param));
            } else {
                let j = choose|j: int|
                    0 <= j < ps.len() && #[trigger] pixel_index(
                        ps[j].coord,
                        param.width as int,
                        param.height as int,
                    ) == i;
                assert(j < last);
                assert(rest[j] == ps[j]);
                assert(occupied(rest, param).contains(i));
                let j2 = choose|j2: int|
                    0 <= j2 < rest.len() && pixel_index(
                        rest[j2].coord,
                        param.width as int,
                        param.height as int,
                    ) == i && composed(buf, rest, param)[i] == particle_color(rest[j2], param);
                assert(ps[j2] == rest[j2]);
                assert(pixel_index(ps[j2].coord, param.width as int, param.height as int) == i
                    && composed(buf, ps, param)[i] == particle_color(ps[j2], param));
            }
        }
    }
}

/// The pixels that a set of particles occupies do not depend on the order of
/// their writes: any reordering, such as the interleaving of several
/// workers, occupies the same pixels.
pub proof fn lemma_occupancy_order_free(ps1: Seq<Particle>, ps2: Seq<Particle>, param: Param)
    requires
        ps1.to_multiset() == ps2.to_multiset(),
    ensures
        occupied(ps1, param) == occupied(ps2, param),
{
    ps1.to_multiset_ensures();
    ps2.to_multiset_ensures();

    assert forall|i: int| occupied(ps1, param).contains(i) implies occupied(ps2, param).contains(
        i,
    ) by {
        let j = choose|j: int|
            0 <= j < ps1.len() && #[trigger] pixel_index(
                ps1[j].coord,
                param.width as int,
                param.height as int,
            ) == i;
        assert(ps1.contains(ps1[j]));
        assert(ps2.to_multiset().count(ps1[j]) > 0);
        let j2 = ps2.lemma_contains_to_index(ps1[j]);
        assert(pixel_index(ps2[j2].coord, param.width as int, param.height as int) == i);
    }
    assert forall|i: int| occupied(ps2, param).contains(i) implies occupied(ps1, param).contains(
        i,
    ) by {
        let j = choose|j: int|
            0 <= j < ps2.len() && #[trigger] pixel_index(
                ps2[j].coord,
                param.width as int,
                param.height as int,
            ) == i;
        assert(ps2.contains(ps2[j]));
        assert(ps1.to_multiset().count(ps2[j]) > 0);
        let j2 = ps1.lemma_contains_to_index(ps2[j]);
        assert(pixel_index(ps1[j2].coord, param.width as int, param.height as int) == i);
    }
    assert(occupied(ps1, param) =~= occupied(ps2, param));
}

/// Splitting the particles between workers splits the occupied pixels: the
/// pixels of the whole are those of one part together with those of the
/// other.
pub proof fn lemma_occupancy_of_split(ps1: Seq<Particle>, ps2: Seq<Particle>, param: Param)
    ensures
        occupied(ps1 + ps2, param) == occupied(ps1, param).union(occupied(ps2, param)),
{
    let all = ps1 + ps2;
    assert forall|i: int| occupied(all, param).contains(i) implies occupied(ps1, param).union(
        occupied(ps2, param),
    ).contains(i) by {
        let j = choose|j: int|
            0 <= j < all.len() && #[trigger] pixel_index(
                all[j].coord,
                param.width as int,
                param.height as int,
            ) == i;
        if j < ps1.len() {
            assert(all[j] == ps1[j]);
        } else {
            assert(all[j] == ps2[j - ps1.len()]);
        }
    }
    assert forall|i: int| occupied(ps1, param).union(occupied(ps2, param)).contains(i) implies occupied(
        all,
        param,
    ).contains(i) by {
        if occupied(ps1, param).contains(i) {
            let j = choose|j: int|
                0 <= j < ps1.len() && #[trigger] pixel_index(
                    ps1[j].coord,
                    param.width as int,
                    param.height as int,
                ) == i;
            assert(all[j] == ps1[j]);
        } else {
            let j = choose|j: int|
                0 <= j < ps2.len() && #[trigger] pixel_index(
                    ps2[j].coord,
                    param.width as int,
                    param.height as int,
                ) == i;
            assert(all[j + ps1.len()] == ps2[j]);
        }
    }
    assert(occupied(all, param) =~= occupied(ps1, param).union(occupied(ps2, param)));
}

} // verus!
