use vstd::prelude::*;
use crate::graphics::Color;

verus! {

/// One unit in the 16.16 fixed-point numbers the renderer works in.
pub const ONE: i64 = 65536;

/// The darkest a pixel can be made: every channel is divided by at most this.
pub const MAX_DIVISOR: u8 = 255;

// How strongly each pass darkens with distance, as `num / den` per unit of
// distance at baseline light: a darkness of 3.5 over each pass's own scale.

/// Walls: scale one.
pub const WALL_SHADE_NUM: u64 = 7;
pub const WALL_SHADE_DEN: u64 = 2;

/// Floor and ceiling: scale one half.
pub const FLOOR_SHADE_NUM: u64 = 7;
pub const FLOOR_SHADE_DEN: u64 = 1;

/// Sprites: scale two.
pub const SPRITE_SHADE_NUM: u64 = 7;
pub const SPRITE_SHADE_DEN: u64 = 4;

/// The divisor applied to colour channels at `distance` under `light` (both 16.16):
/// `distance * num / (den * light)`, kept within `[1, 255]`; with no light at all
/// it is the largest.
pub open spec fn divisor_spec(distance: nat, light: nat, num: u64, den: u64) -> nat {
    if light == 0 || den == 0 {
        MAX_DIVISOR as nat
    } else {
        let q = (distance * (num as nat)) / ((den as nat) * light);
        if q < 1 {
            1
        } else if q > MAX_DIVISOR {
            MAX_DIVISOR as nat
        } else {
            q as nat
        }
    }
}

/// The darkness divisor for a pass, from a fixed-point distance and light intensity.
pub fn shade_divisor(distance: u64, light: u64, num: u64, den: u64) -> (d: u8)
    ensures
        d == divisor_spec(distance as nat, light as nat, num, den),
        1 <= d <= MAX_DIVISOR,
{
    if light == 0 || den == 0 {
        return MAX_DIVISOR;
    }
    assert(distance as int * num as int <= u64::MAX as int * u64::MAX as int) by (nonlinear_arith);
    assert(den as int * light as int <= u64::MAX as int * u64::MAX as int) by (nonlinear_arith);
    assert(den as int * light as int >= 1) by (nonlinear_arith)
        requires
            den >= 1,
            light >= 1,
    ;
    let q: u128 = (distance as u128 * num as u128) / (den as u128 * light as u128);
    if q < 1 {
        1
    } else if q > MAX_DIVISOR as u128 {
        MAX_DIVISOR
    } else {
        q as u8
    }
}

/// A colour channel darkened by `divisor`.
pub open spec fn shade_spec(v: u8, divisor: u8) -> u8 {
    (v / divisor) as u8
}

/// A texel darkened for display: each colour channel halved first where `half`
/// holds, then divided by `divisor`; alpha is left alone.
pub open spec fn darken(c: Color, half: bool, divisor: u8) -> Color {
    Color {
        r: shade_spec(if half { (c.r / 2) as u8 } else { c.r }, divisor),
        g: shade_spec(if half { (c.g / 2) as u8 } else { c.g }, divisor),
        b: shade_spec(if half { (c.b / 2) as u8 } else { c.b }, divisor),
        a: c.a,
    }
}

pub fn darken_color(c: Color, half: bool, divisor: u8) -> (r: Color)
    requires
        divisor >= 1,
    ensures
        r == darken(c, half, divisor),
{
    if half {
        Color { r: c.r / 2 / divisor, g: c.g / 2 / divisor, b: c.b / 2 / divisor, a: c.a }
    } else {
        Color { r: c.r / divisor, g: c.g / divisor, b: c.b / divisor, a: c.a }
    }
}

/// A distance as the shading takes it: beyond `u64::MAX` it is `u64::MAX`.
pub open spec fn clamp_distance(d: int) -> nat {
    if d < 0 {
        0
    } else if d > u64::MAX {
        u64::MAX as nat
    } else {
        d as nat
    }
}

pub fn clamp_distance_exec(d: i128) -> (r: u64)
    ensures
        r == clamp_distance(d as int),
{
    if d < 0 {
        0
    } else if d > u64::MAX as i128 {
        u64::MAX
    } else {
        d as u64
    }
}

/// The divisor never drops below one, so no channel is brightened and no
/// division by zero occurs, whatever the light; and it does not decrease as the
/// distance grows, so a farther pixel is never brighter than a nearer one.
pub proof fn lemma_divisor_monotone(d1: nat, d2: nat, light: nat, num: u64, den: u64, v: u8)
    requires
        d1 <= d2,
    ensures
        1 <= divisor_spec(d1, light, num, den) <= divisor_spec(d2, light, num, den) <= MAX_DIVISOR,
        (v as nat) / divisor_spec(d2, light, num, den) <= (v as nat) / divisor_spec(d1, light, num, den),
{
    if light != 0 && den != 0 {
        assert(d1 * num <= d2 * num) by (nonlinear_arith)
            requires
                d1 <= d2,
        ;
        assert(den * light > 0) by (nonlinear_arith)
            requires
                den >= 1,
                light >= 1,
        ;
        vstd::arithmetic::div_mod::lemma_div_is_ordered(
            (d1 * num) as int,
            (d2 * num) as int,
            (den * light) as int,
        );
    }
    let a = divisor_spec(d1, light, num, den);
    let b = divisor_spec(d2, light, num, den);
    vstd::arithmetic::div_mod::lemma_div_is_ordered_by_denominator(v as int, a as int, b as int);
}

/// A light that a flash has made brighter (or dimmer) than baseline, and the
/// number of ticks left before it is back to baseline.
#[derive(Clone, Copy, PartialEq, Eq, Debug, Structural)]
pub struct LightState {
    /// The light intensity in 16.16; baseline is `ONE`.
    pub intensity: u64,
    pub remaining_ticks: u32,
}

/// The intensity after one tick with `n` ticks left: a `1 / n` share of the way
/// back to baseline, rounded towards the current value.
pub open spec fn relax_spec(a: nat, n: nat) -> nat {
    if n == 0 {
        a
    } else if a >= ONE {
        (a - (a - ONE) / n as int) as nat
    } else {
        (a + (ONE - a) / n as int) as nat
    }
}

/// The state after `k` ticks.
pub open spec fn after_ticks(s: LightState, k: nat) -> LightState
    decreases k,
{
    if k == 0 {
        s
    } else {
        after_ticks(s.ticked(), (k - 1) as nat)
    }
}

impl LightState {
    /// Baseline light, with nothing to relax.
    pub fn new() -> (s: LightState)
        ensures
            s == (LightState { intensity: ONE as u64, remaining_ticks: 0 }),
    {
        LightState { intensity: ONE as u64, remaining_ticks: 0 }
    }

    /// A flash: the light jumps to `intensity` and relaxes back over `ticks` ticks.
    pub fn flash(&mut self, intensity: u64, ticks: u32)
        ensures
            *final(self) == (LightState { intensity, remaining_ticks: ticks }),
    {
        self.intensity = intensity;
        self.remaining_ticks = ticks;
    }

    pub open spec fn ticked(self) -> LightState {
        if self.remaining_ticks == 0 {
            self
        } else {
            LightState {
                intensity: relax_spec(self.intensity as nat, self.remaining_ticks as nat) as u64,
                remaining_ticks: (self.remaining_ticks - 1) as u32,
            }
        }
    }

    /// Moves the light one tick towards baseline.
    pub fn tick(&mut self)
        ensures
            *final(self) == old(self).ticked(),
    {
        if self.remaining_ticks != 0 {
            let n = self.remaining_ticks as u64;
            if self.intensity >= ONE as u64 {
                self.intensity = self.intensity - (self.intensity - ONE as u64) / n;
            } else {
                self.intensity = self.intensity + (ONE as u64 - self.intensity) / n;
            }
            self.remaining_ticks = self.remaining_ticks - 1;
        }
    }
}

/// One tick keeps the intensity between its old value and baseline.
pub proof fn lemma_relax_between(a: nat, n: nat)
    requires
        n >= 1,
    ensures
        a >= ONE ==> ONE <= relax_spec(a, n) <= a,
        a < ONE ==> a <= relax_spec(a, n) <= ONE,
        n == 1 ==> relax_spec(a, n) == ONE,
{
    if a >= ONE {
        vstd::arithmetic::div_mod::lemma_div_is_ordered_by_denominator((a - ONE) as int, 1, n as int);
    } else {
        vstd::arithmetic::div_mod::lemma_div_is_ordered_by_denominator((ONE - a) as int, 1, n as int);
    }
}

/// The relaxation is deterministic and finite: from any state, after exactly
/// `remaining_ticks` ticks the light is back at baseline with nothing left to do,
/// and every state on the way lies between the flash and baseline.
pub proof fn lemma_light_returns_to_baseline(s: LightState)
    requires
        s.remaining_ticks >= 1,
    ensures
        after_ticks(s, s.remaining_ticks as nat) == (LightState { intensity: ONE as u64, remaining_ticks: 0 }),
    decreases s.remaining_ticks,
{
    let t = s.ticked();
    lemma_relax_between(s.intensity as nat, s.remaining_ticks as nat);
    if s.remaining_ticks == 1 {
        assert(after_ticks(t, 0) == t);
    } else {
        lemma_light_returns_to_baseline(t);
    }
}

} // verus!
