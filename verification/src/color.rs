//! Color channels and their triangle-wave drift.
//!
//! Each channel holds a value in fixed-point form: `0` is black level and
//! `SCALE` is full intensity.  Every tick a channel moves by
//! `speed * direction`; when the new value reaches either end of the range
//! the direction flips, so the value oscillates as a triangle wave.  The
//! value itself is never clamped: it may overshoot an end by less than
//! `speed` for one tick before the flipped direction pulls it back.

use vstd::prelude::*;
use crate::SCALE;

verus! {

/// A color as three channels, or a per-channel scalar (a drift speed or a
/// drift direction for each channel).
#[derive(Clone, Copy, PartialEq, Eq, Structural, Debug)]
pub struct Color {
    pub red: i64,
    pub green: i64,
    pub blue: i64,
}

/// The mathematical model of a `Color`: the channels over unbounded integers.
pub ghost struct ColorModel {
    pub red: int,
    pub green: int,
    pub blue: int,
}

impl View for Color {
    type V = ColorModel;

    open spec fn view(&self) -> ColorModel {
        ColorModel { red: self.red as int, green: self.green as int, blue: self.blue as int }
    }
}

impl Color {
    pub fn new(red: i64, green: i64, blue: i64) -> (c: Color)
        ensures
            c@ == (ColorModel { red: red as int, green: green as int, blue: blue as int }),
    {
        Color { red, green, blue }
    }
}

/// The channel value after one drift step.
pub open spec fn drift_value(v: int, s: int, d: int) -> int {
    v + s * d
}

/// The drift direction after one step: it flips exactly when the new value
/// has reached either end of the channel range.
pub open spec fn drift_dir(v: int, s: int, d: int) -> int {
    if drift_value(v, s, d) <= 0 || drift_value(v, s, d) >= SCALE {
        -d
    } else {
        d
    }
}

/// One drift step of all three channels of a color.
pub open spec fn drift_color(c: ColorModel, s: ColorModel, d: ColorModel) -> ColorModel {
    ColorModel {
        red: drift_value(c.red, s.red, d.red),
        green: drift_value(c.green, s.green, d.green),
        blue: drift_value(c.blue, s.blue, d.blue),
    }
}

/// The drift directions of all three channels after one step.
pub open spec fn drift_color_dir(c: ColorModel, s: ColorModel, d: ColorModel) -> ColorModel {
    ColorModel {
        red: drift_dir(c.red, s.red, d.red),
        green: drift_dir(c.green, s.green, d.green),
        blue: drift_dir(c.blue, s.blue, d.blue),
    }
}

/// Well-formed drift state of one channel: the direction is a sign, the
/// speed is at most one full range per tick, the value overshoots an end by
/// less than the speed, and past an end the direction already points back in.
pub open spec fn channel_wf(v: int, s: int, d: int) -> bool {
    &&& d == 1 || d == -1
    &&& 0 <= s <= SCALE
    &&& -s <= v <= SCALE + s
    &&& (v < 0 ==> d == 1)
    &&& (v > SCALE ==> d == -1)
}

/// Well-formed drift state of a whole color.
pub open spec fn color_wf(c: ColorModel, s: ColorModel, d: ColorModel) -> bool {
    &&& channel_wf(c.red, s.red, d.red)
    &&& channel_wf(c.green, s.green, d.green)
    &&& channel_wf(c.blue, s.blue, d.blue)
}

/// One drift step keeps a channel well formed: the value never escapes
/// `[-s, SCALE + s]` because the direction flips at the ends.
pub proof fn lemma_channel_wf_preserved(v: int, s: int, d: int)
    requires
        channel_wf(v, s, d),
    ensures
        channel_wf(drift_value(v, s, d), s, drift_dir(v, s, d)),
{
}

/// The channel state after `n` drift steps: the pair of value and direction.
pub open spec fn drift_iter(v: int, s: int, d: int, n: nat) -> (int, int)
    decreases n,
{
    if n == 0 {
        (v, d)
    } else {
        let prev = drift_iter(v, s, d, (n - 1) as nat);
        (drift_value(prev.0, s, prev.1), drift_dir(prev.0, s, prev.1))
    }
}

/// The value `v + k * m` lies strictly inside the channel range.
pub open spec fn strictly_inside(v: int, m: int, k: int) -> bool {
    0 < v + k * m < SCALE
}

/// Linear drift: while no step reaches a channel end, the value after `n`
/// steps is exactly `v + n * s * d` and the direction never changes.
pub proof fn lemma_drift_linear(v: int, s: int, d: int, n: nat)
    requires
        0 <= s,
        d == 1 || d == -1,
        forall|k: int| 1 <= k <= n ==> #[trigger] strictly_inside(v, s * d, k),
    ensures
        drift_iter(v, s, d, n).0 == v + n * (s * d),
        drift_iter(v, s, d, n).1 == d,
    decreases n,
{
    if n > 0 {
        lemma_drift_linear(v, s, d, (n - 1) as nat);
        let m = s * d;
        assert((n - 1) * m + m == n * m) by (nonlinear_arith);
        assert(strictly_inside(v, m, n as int));
    }
}

} // verus!
