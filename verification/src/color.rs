//! Colors and packing into display pixels.
//!
//! Channels are fixed-point scalars with one whole unit as full intensity.
//! Packing clamps each channel into `[0, 1]`, scales by 255 and truncates,
//! so out-of-range input can never panic or bleed across channels.

use vstd::prelude::*;
use vstd::arithmetic::div_mod::lemma_div_multiples_vanish;
use crate::fixed::Fx;
use crate::fixed::SCALE;
use crate::fixed::fx_clamp;
use crate::fixed::lemma_tdiv_bound;
use crate::fixed::lemma_tdiv_pos;
use crate::fixed::spec_clamp;
use crate::fixed::tdiv;
use crate::math::V3;
use crate::math::Vec3;
use crate::math::sv;

verus! {

/// A color: either three channels, or three channels with an opacity in
/// front.
#[derive(Clone, Copy)]
pub enum Color {
    Rgb(Vec3),
    Argb(Fx, Vec3),
}

/// Every channel lies inside one unit.
pub open spec fn color_in_unit(v: V3) -> bool {
    0 <= v.x <= SCALE && 0 <= v.y <= SCALE && 0 <= v.z <= SCALE
}

/// A color is admissible when its channels (and opacity) lie inside one
/// unit.
pub open spec fn color_wf(c: Color) -> bool {
    match c {
        Color::Rgb(v) => color_in_unit(sv(v)),
        Color::Argb(a, v) => color_in_unit(sv(v)) && 0 <= a <= SCALE,
    }
}

/// A color's three channels, its opacity dropped.
pub open spec fn color_channels(c: Color) -> V3 {
    match c {
        Color::Rgb(v) => sv(v),
        Color::Argb(_, v) => sv(v),
    }
}

/// The byte a channel packs to: clamped into one unit, scaled by 255,
/// truncated.
pub open spec fn channel_byte(c: int) -> int {
    tdiv(spec_clamp(c, 0, SCALE as int) * 255, SCALE as int)
}

/// The packed `0x00RRGGBB` form of three channels.
pub open spec fn pack_rgb(v: V3) -> int {
    channel_byte(v.x) * 65536 + channel_byte(v.y) * 256 + channel_byte(v.z)
}

/// The packed `0xAARRGGBB` form of an opacity and three channels.
pub open spec fn pack_argb(a: int, v: V3) -> int {
    channel_byte(a) * 16777216 + pack_rgb(v)
}

/// One channel's packed byte.
fn channel_byte_exec(c: Fx) -> (r: u32)
    ensures
        r == channel_byte(c as int),
        r <= 255,
{
    let cl = fx_clamp(c, 0, SCALE);
    let n: i128 = cl * 255;
    let b: i128 = n.checked_div(SCALE).unwrap();
    proof {
        lemma_tdiv_pos(n as int, SCALE as int);
        lemma_tdiv_bound(n as int, SCALE as int, 255 * SCALE as int);
        lemma_div_multiples_vanish(255, SCALE as int);
    }
    b as u32
}

impl Color {
    /// Three channels, each already inside one unit.
    pub fn rgb(r: Fx, g: Fx, b: Fx) -> (c: Color)
        requires
            0 <= r <= SCALE,
            0 <= g <= SCALE,
            0 <= b <= SCALE,
        ensures
            c == Color::Rgb(Vec3 { x: r, y: g, z: b }),
    {
        Color::Rgb(Vec3 { x: r, y: g, z: b })
    }

    pub fn argb(a: Fx, r: Fx, g: Fx, b: Fx) -> (c: Color)
        ensures
            c == Color::Argb(a, Vec3 { x: r, y: g, z: b }),
    {
        Color::Argb(a, Vec3 { x: r, y: g, z: b })
    }

    /// The packed pixel. The top byte stays zero for a plain color and
    /// holds the opacity otherwise.
    pub fn to_rgb_bytes(&self) -> (r: u32)
        ensures
            match *self {
                Color::Rgb(v) => r == pack_rgb(sv(v)),
                Color::Argb(a, v) => r == pack_argb(a as int, sv(v)),
            },
    {
        match *self {
            Color::Rgb(v) => {
                let cr = channel_byte_exec(v.x);
                let cg = channel_byte_exec(v.y);
                let cb = channel_byte_exec(v.z);
                cr * 65536 + cg * 256 + cb
            },
            Color::Argb(a, v) => {
                let ca = channel_byte_exec(a);
                let cr = channel_byte_exec(v.x);
                let cg = channel_byte_exec(v.y);
                let cb = channel_byte_exec(v.z);
                ca * 16777216 + cr * 65536 + cg * 256 + cb
            },
        }
    }

    /// The opacity: one for a plain color.
    pub fn alpha(&self) -> (r: Fx)
        ensures
            match *self {
                Color::Rgb(_) => r == SCALE,
                Color::Argb(a, _) => r == a,
            },
    {
        match *self {
            Color::Rgb(_) => SCALE,
            Color::Argb(a, _) => a,
        }
    }
}

} // verus!
