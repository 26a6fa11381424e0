//! Simulation parameters and the per-particle lifecycle: move, expire,
//! respawn, steer, and the particle's pixel and colour.
use crate::color::{hsv_to_rgb, hue_to_rgb, packed, FULL};
use crate::coord::{in_domain, pixel_index, to_pixel_index, Coord, ONE};
use rand::rngs::StdRng;
use vstd::prelude::*;

verus! {

/// Parameters shared read-only by every particle during a tick.
#[derive(Clone, Copy, Debug, PartialEq, Eq, Structural)]
pub struct Param {
    /// Largest velocity component, in units of `1 / ONE` per tick.
    pub iteration_speed: u32,
    /// Frame counter, the time axis of a time-varying field.
    pub iteration: u16,
    pub width: usize,
    pub height: usize,
    /// Lifetime, in ticks, of a freshly spawned particle.
    pub max_lifetime: u32,
}

impl Param {
    /// The parameters describe a non-empty buffer whose size fits in memory,
    /// a speed of at most one unit per tick and a positive lifetime.
    pub open spec fn wf(self) -> bool {
        &&& self.width >= 1
        &&& self.height >= 1
        &&& self.width * self.height <= usize::MAX
        &&& self.iteration_speed <= ONE
        &&& self.max_lifetime >= 1
    }

    /// Parameters for a `width × height` buffer at frame 0, or `None` where
    /// they would not be well formed.
    pub fn new(width: usize, height: usize, iteration_speed: u32, max_lifetime: u32)
        -> (r: Option<Param>)
        ensures
            r.is_some() <==> (width >= 1 && height >= 1 && width * height <= usize::MAX
                && iteration_speed <= ONE && max_lifetime >= 1),
            r.is_some() ==> r.unwrap().wf() && r.unwrap() == (Param {
                iteration_speed,
                iteration: 0,
                width,
                height,
                max_lifetime,
            }),
    {
        if width == 0 || height == 0 || iteration_speed > ONE as u32 || max_lifetime == 0 {
            return None;
        }
        if width > usize::MAX / height {
            assert(width * height > usize::MAX) by (nonlinear_arith)
                requires
                    width > usize::MAX / height,
                    height >= 1,
            ;
            return None;
        }
        assert(width * height <= usize::MAX) by (nonlinear_arith)
            requires
                width <= usize::MAX / height,
                height >= 1,
        ;
        Some(Param { iteration_speed, iteration: 0, width, height, max_lifetime })
    }

    /// The frame counter mapped onto the time axis `[-ONE, ONE]` of the field.
    pub fn time_coord(&self) -> (t: i32)
        ensures
            t == (self.iteration as int) * (2 * ONE) / 65535 - ONE,
            -ONE <= t <= ONE,
    {
        let scaled: u64 = (self.iteration as u64) * (2 * ONE as u64) / 65535;
        (scaled as i32) - ONE
    }
}

/// A displacement per tick, in units of `1 / ONE`.
#[derive(Clone, Copy, Debug, PartialEq, Eq, Structural)]
pub struct Velocity {
    pub dx: i32,
    pub dy: i32,
}

/// The displacement `(dx, dy)` is no longer than `speed`.
pub open spec fn within_speed(dx: int, dy: int, speed: int) -> bool {
    dx * dx + dy * dy <= speed * speed
}

/// `v` shrunk by an eighth, toward zero.
pub open spec fn shrink(v: int) -> int {
    if v >= 0 {
        v * 7 / 8
    } else {
        -((-v) * 7 / 8)
    }
}

/// The absolute value of `v`.
pub open spec fn abs(v: int) -> int {
    if v >= 0 {
        v
    } else {
        -v
    }
}

/// `(dx, dy)` shrunk by an eighth at a time, toward zero, until it is no
/// longer than `speed`.
pub open spec fn shrunk_into(dx: int, dy: int, speed: int) -> (int, int)
    decreases abs(dx) + abs(dy),
{
    if within_speed(dx, dy, speed) || (dx == 0 && dy == 0) {
        (dx, dy)
    } else {
        shrunk_into(shrink(dx), shrink(dy), speed)
    }
}

/// A displacement no longer than `speed` has each component within it.
pub proof fn lemma_component_bound(dx: int, dy: int, speed: int)
    requires
        speed >= 0,
        within_speed(dx, dy, speed),
    ensures
        -speed <= dx <= speed,
        -speed <= dy <= speed,
{
    assert(-speed <= dx <= speed && -speed <= dy <= speed) by (nonlinear_arith)
        requires
            speed >= 0,
            dx * dx + dy * dy <= speed * speed,
    ;
}

/// Shrinking ends within the speed, each component no larger in size than
/// it started.
pub proof fn lemma_shrunk_within(dx: int, dy: int, speed: int)
    requires
        speed >= 0,
    ensures
        within_speed(shrunk_into(dx, dy, speed).0, shrunk_into(dx, dy, speed).1, speed),
        abs(shrunk_into(dx, dy, speed).0) <= abs(dx),
        abs(shrunk_into(dx, dy, speed).1) <= abs(dy),
    decreases abs(dx) + abs(dy),
{
    if dx == 0 && dy == 0 {
        assert(speed * speed >= 0) by (nonlinear_arith)
            requires
                speed >= 0,
        ;
    } else if !within_speed(dx, dy, speed) {
        lemma_shrunk_within(shrink(dx), shrink(dy), speed);
    }
}

/// Whether `(dx, dy)` is longer than `speed`.
fn longer_than(dx: i32, dy: i32, speed: u32) -> (r: bool)
    requires
        -ONE <= dx <= ONE,
        -ONE <= dy <= ONE,
        speed <= ONE,
    ensures
        r == !within_speed(dx as int, dy as int, speed as int),
{
    let x: i64 = dx as i64;
    let y: i64 = dy as i64;
    let s: i64 = speed as i64;
    assert(0 <= x * x <= 1_000_000_000_000) by (nonlinear_arith)
        requires
            -1_000_000 <= x <= 1_000_000,
    ;
    assert(0 <= y * y <= 1_000_000_000_000) by (nonlinear_arith)
        requires
            -1_000_000 <= y <= 1_000_000,
    ;
    assert(0 <= s * s <= 1_000_000_000_000) by (nonlinear_arith)
        requires
            0 <= s <= 1_000_000,
    ;
    let xx: i64 = x * x;
    let yy: i64 = y * y;
    xx + yy > s * s
}

/// `v` limited to `[-bound, bound]`.
pub open spec fn clamp(v: int, bound: int) -> int {
    if v > bound {
        bound
    } else if v < -bound {
        -bound
    } else {
        v
    }
}

/// A particle: where it is, where it goes each tick and how many ticks it
/// has left.
#[derive(Clone, Copy, Debug, PartialEq, Eq, Structural)]
pub struct Particle {
    pub coord: Coord,
    pub velocity: Velocity,
    pub lifetime: u32,
}

/// Where the particle's velocity takes it.
pub open spec fn moved(p: Particle) -> Coord {
    Coord { x: (p.coord.x + p.velocity.dx) as i32, y: (p.coord.y + p.velocity.dy) as i32 }
}

/// A tick respawns the particle: its move leaves the square, or its
/// lifetime is spent.
pub open spec fn due_for_respawn(p: Particle) -> bool {
    !in_domain(moved(p)) || p.lifetime == 0
}

/// One tick of the lifecycle. The particle moves by its velocity; if that
/// leaves the square or its lifetime was spent, it starts again at `fresh`
/// at rest with the full lifetime; either way the tick then takes one from
/// its lifetime.
pub open spec fn stepped(p: Particle, param: Param, fresh: Coord) -> Particle {
    if due_for_respawn(p) {
        Particle {
            coord: fresh,
            velocity: Velocity { dx: 0, dy: 0 },
            lifetime: (param.max_lifetime - 1) as u32,
        }
    } else {
        Particle { coord: moved(p), velocity: p.velocity, lifetime: (p.lifetime - 1) as u32 }
    }
}

/// Hue, in degrees, of a particle with `lifetime` of `max_lifetime` ticks left.
pub open spec fn lifetime_hue(lifetime: int, max_lifetime: int) -> int {
    lifetime * 360 / max_lifetime
}

impl Particle {
    /// The particle lies in the square, its velocity is no longer than the
    /// iteration speed, and its lifetime is within the maximum.
    pub open spec fn wf(self, param: Param) -> bool {
        &&& in_domain(self.coord)
        &&& within_speed(
            self.velocity.dx as int,
            self.velocity.dy as int,
            param.iteration_speed as int,
        )
        &&& self.lifetime <= param.max_lifetime
    }

    /// A particle at a point drawn from `rng`, at rest, with the full lifetime.
    pub fn new(param: &Param, rng: &mut StdRng) -> (p: Particle)
        requires
            param.wf(),
        ensures
            p.wf(*param),
            -ONE <= p.coord.x < ONE,
            -ONE <= p.coord.y < ONE,
            p.velocity == (Velocity { dx: 0, dy: 0 }),
            p.lifetime == param.max_lifetime,
    {
        assert(within_speed(0, 0, param.iteration_speed as int));
        Particle {
            coord: Coord::rand(rng),
            velocity: Velocity { dx: 0, dy: 0 },
            lifetime: param.max_lifetime,
        }
    }

    /// Whether the next tick respawns this particle.
    pub fn needs_respawn(&self, param: &Param) -> (r: bool)
        requires
            param.wf(),
            self.wf(*param),
        ensures
            r == due_for_respawn(*self),
    {
        proof {
            lemma_component_bound(
                self.velocity.dx as int,
                self.velocity.dy as int,
                param.iteration_speed as int,
            );
        }
        let c = Coord::new(self.coord.x + self.velocity.dx, self.coord.y + self.velocity.dy);
        !c.is_in_domain() || self.lifetime == 0
    }

    /// One tick of the lifecycle, with `fresh` as the point of a respawn.
    pub fn step(&mut self, param: &Param, fresh: Coord)
        requires
            param.wf(),
            old(self).wf(*param),
            in_domain(fresh),
        ensures
            *final(self) == stepped(*old(self), *param, fresh),
            final(self).wf(*param),
    {
        assert(within_speed(0, 0, param.iteration_speed as int));
        if self.needs_respawn(param) {
            self.coord = fresh;
            self.velocity = Velocity { dx: 0, dy: 0 };
            self.lifetime = param.max_lifetime;
        } else {
            proof {
                lemma_component_bound(
                    self.velocity.dx as int,
                    self.velocity.dy as int,
                    param.iteration_speed as int,
                );
            }
            self.coord = Coord::new(self.coord.x + self.velocity.dx, self.coord.y + self.velocity.dy);
        }
        self.lifetime = self.lifetime - 1;
    }

    /// One tick of the lifecycle; a respawn draws its point from `rng`.
    pub fn update(&mut self, param: &Param, rng: &mut StdRng)
        requires
            param.wf(),
            old(self).wf(*param),
        ensures
            *final(self) == stepped(*old(self), *param, final(self).coord),
            final(self).wf(*param),
            due_for_respawn(*old(self)) ==> -ONE <= final(self).coord.x < ONE && -ONE
                <= final(self).coord.y < ONE,
            !due_for_respawn(*old(self)) ==> *final(rng) == *old(rng),
    {
        let fresh = if self.needs_respawn(param) {
            Coord::rand(rng)
        } else {
            self.coord
        };
        self.step(param, fresh);
    }

    /// Steers the particle toward `(dx, dy)`. Each component is first
    /// limited to the iteration speed; while the pair is still longer than
    /// the speed, both shrink by an eighth toward zero. A pair within the
    /// speed is kept as it is.
    pub fn set_velocity(&mut self, dx: i32, dy: i32, param: &Param)
        requires
            param.wf(),
            old(self).wf(*param),
        ensures
            (final(self).velocity.dx as int, final(self).velocity.dy as int) == shrunk_into(
                clamp(dx as int, param.iteration_speed as int),
                clamp(dy as int, param.iteration_speed as int),
                param.iteration_speed as int,
            ),
            within_speed(
                final(self).velocity.dx as int,
                final(self).velocity.dy as int,
                param.iteration_speed as int,
            ),
            within_speed(dx as int, dy as int, param.iteration_speed as int)
                ==> final(self).velocity == (Velocity { dx, dy }),
            final(self).coord == old(self).coord,
            final(self).lifetime == old(self).lifetime,
            final(self).wf(*param),
    {
        let s = param.iteration_speed as i32;
        let mut cx = if dx > s {
            s
        } else if dx < -s {
            -s
        } else {
            dx
        };
        let mut cy = if dy > s {
            s
        } else if dy < -s {
            -s
        } else {
            dy
        };
        let ghost start = (cx as int, cy as int);
        proof {
            if within_speed(dx as int, dy as int, s as int) {
                lemma_component_bound(dx as int, dy as int, s as int);
            }
        }
        while longer_than(cx, cy, param.iteration_speed)
            invariant
                0 <= s <= ONE,
                s == param.iteration_speed,
                -s <= cx <= s,
                -s <= cy <= s,
                shrunk_into(cx as int, cy as int, s as int) == shrunk_into(
                    start.0,
                    start.1,
                    s as int,
                ),
            decreases abs(cx as int) + abs(cy as int),
        {
            assert(!(cx == 0 && cy == 0)) by {
                if cx == 0 && cy == 0 {
                    assert(within_speed(0, 0, s as int)) by (nonlinear_arith)
                        requires
                            s >= 0,
                    ;
                }
            }
            cx = if cx >= 0 {
                cx * 7 / 8
            } else {
                -((-cx) * 7 / 8)
            };
            cy = if cy >= 0 {
                cy * 7 / 8
            } else {
                -((-cy) * 7 / 8)
            };
        }
        self.velocity = Velocity { dx: cx, dy: cy };
    }

    /// Index of the particle's pixel in the row-major buffer.
    pub fn to_coord(&self, param: &Param) -> (r: usize)
        requires
            param.wf(),
            self.wf(*param),
        ensures
            r == pixel_index(self.coord, param.width as int, param.height as int),
            r < param.width * param.height,
    {
        to_pixel_index(self.coord, param.width, param.height)
    }

    /// Packed colour of the particle: the hue is the share of lifetime left,
    /// times 360 degrees, at full saturation and value.
    pub fn colorize(&self, param: &Param) -> (c: u32)
        requires
            param.wf(),
            self.wf(*param),
        ensures
            c == packed(
                hsv_to_rgb(
                    lifetime_hue(self.lifetime as int, param.max_lifetime as int),
                    FULL as int,
                    FULL as int,
                ),
            ),
    {
        let l = self.lifetime as u64;
        let m = param.max_lifetime as u64;
        assert(l * 360 <= m * 360) by (nonlinear_arith)
            requires
                l <= m,
        ;
        assert((l * 360) as int / (m as int) <= 360) by (nonlinear_arith)
            requires
                l * 360 <= m * 360,
                m >= 1,
        ;
        let hue = (l * 360 / m) as u32;
        hue_to_rgb(hue, FULL, FULL).to_u32()
    }
}

/// A particle whose lifetime is spent is respawned by the next tick: it
/// stands at the fresh point, inside the square, at rest, with its lifetime
/// reset to the maximum less the one tick that this tick takes.
pub proof fn lemma_spent_particle_respawns(p: Particle, param: Param, fresh: Coord)
    requires
        param.wf(),
        p.wf(param),
        p.lifetime == 0,
        in_domain(fresh),
    ensures
        due_for_respawn(p),
        stepped(p, param, fresh).coord == fresh,
        in_domain(stepped(p, param, fresh).coord),
        stepped(p, param, fresh).velocity == (Velocity { dx: 0, dy: 0 }),
        stepped(p, param, fresh).lifetime == param.max_lifetime - 1,
        stepped(p, param, fresh).wf(param),
{
}

/// A particle whose move would take it out of the square on either axis is
/// respawned on that very tick, whatever lifetime it has left, so no
/// particle is ever seen outside the square.
pub proof fn lemma_escaping_particle_respawns(p: Particle, param: Param, fresh: Coord)
    requires
        param.wf(),
        p.wf(param),
        !in_domain(moved(p)),
        in_domain(fresh),
    ensures
        due_for_respawn(p),
        stepped(p, param, fresh).coord == fresh,
        stepped(p, param, fresh).lifetime == param.max_lifetime - 1,
        in_domain(stepped(p, param, fresh).coord),
{
}

} // verus!
