//! The player's vertical launch-and-fall motion.
//!
//! Distances are counted in sub-pixels (tenths of a pixel) and velocities in
//! sub-pixels per tick, so the per-tick arithmetic is exact.
use vstd::prelude::*;

verus! {

/// Sub-pixels in one pixel.
pub const SUBPIXELS_PER_PIXEL: i64 = 10;

/// Downward acceleration added to the velocity on each airborne tick (0.1 px).
pub const GRAVITY_ACCEL: i64 = 1;

/// Upward impulse taken off the velocity by one launch (2.5 px per tick).
pub const LAUNCH_IMPULSE: i64 = 25;

/// The ammunition a new player carries.
pub const START_AMMO: i32 = 10;

/// The mathematical state of the vertical motion.
pub struct Motion {
    /// Height above the rest line; larger is higher.
    pub pos_y: int,
    /// Vertical velocity; negative moves the player up.
    pub velocity: int,
    /// Whether a launch is still resolving.
    pub launched: bool,
}

/// The motion at rest height after a launch impulse.
pub open spec fn boom(m: Motion) -> Motion {
    Motion { pos_y: m.pos_y, velocity: m.velocity - LAUNCH_IMPULSE, launched: true }
}

/// First half of a tick: a launched player moves by its velocity and lands
/// (is clamped to the rest line) when it would sink below it.
pub open spec fn launch_phase(m: Motion) -> Motion {
    if m.launched {
        let p = m.pos_y - m.velocity;
        if p < 0 {
            Motion { pos_y: 0, velocity: m.velocity, launched: false }
        } else {
            Motion { pos_y: p, velocity: m.velocity, launched: true }
        }
    } else {
        m
    }
}

/// Second half of a tick: above the rest line, or while held airborne,
/// gravity is added to the velocity and the player moves by it again.
pub open spec fn gravity_phase(m: Motion, still_airborne: bool) -> Motion {
    if m.pos_y > 0 || still_airborne {
        let v = m.velocity + GRAVITY_ACCEL;
        Motion { pos_y: m.pos_y - v, velocity: v, launched: m.launched }
    } else {
        m
    }
}

/// One tick of motion.
pub open spec fn tick(m: Motion, still_airborne: bool) -> Motion {
    gravity_phase(launch_phase(m), still_airborne)
}

/// `n` ticks with the same airborne signal on each.
pub open spec fn ticks(m: Motion, still_airborne: bool, n: nat) -> Motion
    decreases n,
{
    if n == 0 {
        m
    } else {
        tick(ticks(m, still_airborne, (n - 1) as nat), still_airborne)
    }
}

/// At rest: on the rest line with no launch resolving.
pub open spec fn at_rest(m: Motion) -> bool {
    m.pos_y == 0 && !m.launched
}

pub open spec fn fits_i64(x: int) -> bool {
    i64::MIN <= x <= i64::MAX
}

/// Every intermediate value of one tick fits in the machine integers.
pub open spec fn tick_fits(m: Motion, still_airborne: bool) -> bool {
    let a = launch_phase(m);
    &&& fits_i64(m.pos_y - m.velocity)
    &&& (a.pos_y > 0 || still_airborne) ==> {
        &&& fits_i64(a.velocity + GRAVITY_ACCEL)
        &&& fits_i64(a.pos_y - (a.velocity + GRAVITY_ACCEL))
    }
}

/// Within a launch arc that began at rest with upward speed `m`, after `k`
/// ticks the height is `k * (2m - k)` and the velocity `k - m`.
proof fn lemma_arc(m: int, k: nat)
    requires
        m > 0,
        k <= 2 * m,
    ensures
        ticks(Motion { pos_y: 0, velocity: -m, launched: true }, false, k) == (Motion {
            pos_y: k * (2 * m - k),
            velocity: k - m,
            launched: true,
        }),
    decreases k,
{
    if k > 0 {
        let j = (k - 1) as nat;
        lemma_arc(m, j);
        assert(j * (2 * m - j - 1) >= 0) by (nonlinear_arith)
            requires
                j <= 2 * m - 1,
        ;
        assert(j * (2 * m - j) - (j - m) == j * (2 * m - j - 1) + m) by (nonlinear_arith);
        assert(j * (2 * m - j) - (j - m) - (k - m) == k * (2 * m - k)) by (nonlinear_arith)
            requires
                k == j + 1,
        ;
        let start = Motion { pos_y: 0, velocity: -m, launched: true };
        assert(ticks(start, false, k) == tick(ticks(start, false, j), false));
    } else {
        assert(k * (2 * m - k) == 0) by (nonlinear_arith)
            requires
                k == 0,
        ;
    }
}

/// A launch from rest ends: ticking with no airborne signal comes back to
/// rest after finitely many ticks, and the height is never negative on the
/// way. The one exception is a resting velocity equal to the launch impulse,
/// which the impulse cancels exactly, leaving the player launched on the rest
/// line for good.
pub proof fn lemma_launch_settles(start: Motion)
    requires
        at_rest(start),
        start.velocity != LAUNCH_IMPULSE,
    ensures
        exists|n: nat|
            at_rest(#[trigger] ticks(boom(start), false, n)) && forall|k: nat|
                k <= n ==> #[trigger] ticks(boom(start), false, k).pos_y >= 0,
{
    let b = boom(start);
    let u = start.velocity - LAUNCH_IMPULSE;
    if u > 0 {
        assert(ticks(b, false, 1) == tick(ticks(b, false, 0), false));
        assert(at_rest(ticks(b, false, 1)));
        assert forall|k: nat| k <= 1 implies #[trigger] ticks(b, false, k).pos_y >= 0 by {
            if k == 1 {
                assert(ticks(b, false, 1) == tick(ticks(b, false, 0), false));
            }
        }
        assert(at_rest(ticks(b, false, 1)) && forall|k: nat|
            k <= 1 ==> #[trigger] ticks(b, false, k).pos_y >= 0);
    } else {
        let m = -u;
        let n = (2 * m + 1) as nat;
        assert(b == (Motion { pos_y: 0, velocity: -m, launched: true }));
        lemma_arc(m, (2 * m) as nat);
        let t = (2 * m) as nat;
        assert(t * (2 * m - t) == 0) by (nonlinear_arith)
            requires
                t == 2 * m,
        ;
        assert(ticks(b, false, n) == tick(ticks(b, false, (2 * m) as nat), false));
        assert(at_rest(ticks(b, false, n)));
        assert forall|k: nat| k <= n implies #[trigger] ticks(b, false, k).pos_y >= 0 by {
            if k <= 2 * m {
                lemma_arc(m, k);
                assert(k * (2 * m - k) >= 0) by (nonlinear_arith)
                    requires
                        k <= 2 * m,
                ;
            }
        }
        assert(at_rest(ticks(b, false, n)) && forall|k: nat|
            k <= n ==> #[trigger] ticks(b, false, k).pos_y >= 0);
    }
}

/// While the airborne signal is held, every tick adds gravity to the
/// velocity, whether or not a launch is resolving: after `n` ticks the
/// velocity has grown by exactly `n` times the gravity step.
pub proof fn lemma_airborne_accumulates(m: Motion, n: nat)
    ensures
        tick(m, true).velocity == m.velocity + GRAVITY_ACCEL,
        ticks(m, true, n).velocity == m.velocity + n * GRAVITY_ACCEL,
    decreases n,
{
    if n > 0 {
        lemma_airborne_accumulates(m, (n - 1) as nat);
    }
}

/// The player: horizontal position, ammunition, and the vertical motion.
pub struct Player {
    /// Horizontal position, in sub-pixels.
    pub pos_x: i64,
    /// Height above the rest line, in sub-pixels.
    pub pos_y: i64,
    pub ammo: i32,
    /// Vertical velocity, in sub-pixels per tick; negative moves up.
    pub velocity: i64,
    /// Whether a launch is still resolving.
    pub going_boom: bool,
}

impl Player {
    pub open spec fn motion(&self) -> Motion {
        Motion { pos_y: self.pos_y as int, velocity: self.velocity as int, launched: self.going_boom }
    }

    /// A player at rest at horizontal position `pos_x`, with full ammunition.
    pub fn new(pos_x: i64) -> (r: Player)
        ensures
            r.pos_x == pos_x,
            r.ammo == START_AMMO,
            r.motion() == (Motion { pos_y: 0, velocity: 0, launched: false }),
    {
        Player { pos_x, pos_y: 0, ammo: START_AMMO, velocity: 0, going_boom: false }
    }

    /// Applies an upward launch impulse; repeated launches stack.
    pub fn go_boom(&mut self)
        requires
            fits_i64(old(self).velocity - LAUNCH_IMPULSE),
        ensures
            final(self).motion() == boom(old(self).motion()),
            final(self).pos_x == old(self).pos_x,
            final(self).ammo == old(self).ammo,
    {
        self.velocity = self.velocity - LAUNCH_IMPULSE;
        self.going_boom = true;
    }

    /// Whether one `update(still_airborne)` stays within the machine integers.
    pub fn can_update(&self, still_airborne: bool) -> (r: bool)
        ensures
            r == tick_fits(self.motion(), still_airborne),
    {
        let p = self.pos_y as i128 - self.velocity as i128;
        if p < i64::MIN as i128 || p > i64::MAX as i128 {
            return false;
        }
        let (a_pos, a_vel) = if self.going_boom {
            if p < 0 { (0i128, self.velocity as i128) } else { (p, self.velocity as i128) }
        } else {
            (self.pos_y as i128, self.velocity as i128)
        };
        if a_pos > 0 || still_airborne {
            let v = a_vel + GRAVITY_ACCEL as i128;
            let q = a_pos - v;
            v <= i64::MAX as i128 && q >= i64::MIN as i128 && q <= i64::MAX as i128
        } else {
            true
        }
    }

    /// Advances the motion by one tick.
    pub fn update(&mut self, still_airborne: bool)
        requires
            tick_fits(old(self).motion(), still_airborne),
        ensures
            final(self).motion() == tick(old(self).motion(), still_airborne),
            final(self).pos_x == old(self).pos_x,
            final(self).ammo == old(self).ammo,
    {
        if self.going_boom {
            self.pos_y = self.pos_y - self.velocity;
            if self.pos_y < 0 {
                self.going_boom = false;
                self.pos_y = 0;
            }
        }
        if self.pos_y > 0 || still_airborne {
            self.velocity = self.velocity + GRAVITY_ACCEL;
            self.pos_y = self.pos_y - self.velocity;
        }
    }
}

} // verus!
