//! Colors and the brightness ramp that turns an escape iteration into a color.

use vstd::prelude::*;
use vstd::arithmetic::div_mod::lemma_div_is_ordered;

verus! {

/// Number of iterations that brightness is normalized against. The ramp
/// always divides by this constant, whatever budget an evaluation ran with.
pub const MAX_ITERATIONS: u64 = 50;

/// Red channel of the color at full brightness.
pub const BASE_RED: u8 = 255;

/// Green channel of the color at full brightness.
pub const BASE_GREEN: u8 = 127;

/// Blue channel of the color at full brightness.
pub const BASE_BLUE: u8 = 0;

/// Alpha of every color the ramp produces.
pub const OPAQUE: u8 = 255;

/// An RGBA color with 8 bits per channel.
#[derive(Clone, Copy, Debug, PartialEq, Eq, Structural)]
pub struct Color {
    pub r: u8,
    pub g: u8,
    pub b: u8,
    pub a: u8,
}

/// `base * iteration / MAX_ITERATIONS`, rounded down and capped at 255.
pub open spec fn scaled(base: u8, iteration: u64) -> u8 {
    let exact = (base as int * iteration as int) / (MAX_ITERATIONS as int);
    if exact >= 255 {
        255u8
    } else {
        exact as u8
    }
}

/// The color of a point, given the iteration at which its orbit was first
/// seen outside the escape radius, or `None` if it stayed inside for the
/// whole budget.
pub open spec fn ramp(escaped_at: Option<u64>) -> Color {
    match escaped_at {
        None => Color::spec_black(),
        Some(iteration) => Color {
            r: scaled(BASE_RED, iteration),
            g: scaled(BASE_GREEN, iteration),
            b: scaled(BASE_BLUE, iteration),
            a: OPAQUE,
        },
    }
}

impl Color {
    /// Opaque black.
    pub open spec fn spec_black() -> Color {
        Color { r: 0, g: 0, b: 0, a: OPAQUE }
    }

    /// The color at full brightness.
    pub open spec fn spec_base() -> Color {
        Color { r: BASE_RED, g: BASE_GREEN, b: BASE_BLUE, a: OPAQUE }
    }

    /// Opaque black: the color of points whose orbit stays bounded.
    #[verifier::when_used_as_spec(spec_black)]
    pub fn black() -> (color: Color)
        ensures
            color == Color::spec_black(),
    {
        Color { r: 0, g: 0, b: 0, a: OPAQUE }
    }

    /// The color at full brightness, which the ramp scales down.
    #[verifier::when_used_as_spec(spec_base)]
    pub fn base() -> (color: Color)
        ensures
            color == Color::spec_base(),
    {
        Color { r: BASE_RED, g: BASE_GREEN, b: BASE_BLUE, a: OPAQUE }
    }

    /// Colors a point by how fast its orbit escaped. A bounded orbit
    /// (`None`) is black; an orbit that escaped at `iteration` gets each base
    /// channel multiplied by `iteration / MAX_ITERATIONS`, truncated toward
    /// zero and saturated at 255. Alpha is always opaque.
    pub fn from_escape(escaped_at: Option<u64>) -> (color: Color)
        ensures
            color == ramp(escaped_at),
    {
        match escaped_at {
            None => Color::black(),
            Some(iteration) => Color {
                r: scale_channel(BASE_RED, iteration),
                g: scale_channel(BASE_GREEN, iteration),
                b: scale_channel(BASE_BLUE, iteration),
                a: OPAQUE,
            },
        }
    }
}

/// Only a bounded orbit and an escape at iteration 0 are black: an escape
/// at any later iteration has some red in it.
pub proof fn ramp_is_black_only_without_escape(escaped_at: Option<u64>)
    ensures
        ramp(escaped_at) == Color::spec_black() <==> (escaped_at is None || escaped_at == Some(
            0u64,
        )),
{
    if let Some(iteration) = escaped_at {
        if iteration >= 1 {
            assert(BASE_RED as int * iteration as int >= 255) by (nonlinear_arith)
                requires
                    BASE_RED == 255,
                    iteration >= 1,
            ;
        }
    }
}

/// The later an orbit escapes, the brighter its color: no channel falls as
/// the escape iteration grows.
pub proof fn ramp_grows_with_iteration(earlier: u64, later: u64)
    requires
        earlier <= later,
    ensures
        ramp(Some(earlier)).r <= ramp(Some(later)).r,
        ramp(Some(earlier)).g <= ramp(Some(later)).g,
        ramp(Some(earlier)).b <= ramp(Some(later)).b,
{
    scaled_grows_with_iteration(BASE_RED, earlier, later);
    scaled_grows_with_iteration(BASE_GREEN, earlier, later);
    scaled_grows_with_iteration(BASE_BLUE, earlier, later);
}

/// A scaled channel does not fall as the iteration grows.
proof fn scaled_grows_with_iteration(base: u8, earlier: u64, later: u64)
    requires
        earlier <= later,
    ensures
        scaled(base, earlier) <= scaled(base, later),
{
    assert(0 <= base as int * earlier as int <= base as int * later as int) by (nonlinear_arith)
        requires
            0 <= base,
            0 <= earlier <= later,
    ;
    lemma_div_is_ordered(
        base as int * earlier as int,
        base as int * later as int,
        MAX_ITERATIONS as int,
    );
    lemma_div_is_ordered(0, base as int * earlier as int, MAX_ITERATIONS as int);
}

/// Scales one channel by `iteration / MAX_ITERATIONS`, truncating toward
/// zero and saturating at the channel maximum.
fn scale_channel(base: u8, iteration: u64) -> (channel: u8)
    ensures
        channel == scaled(base, iteration),
{
    assert(base * iteration <= 255 * 0xffff_ffff_ffff_ffff) by (nonlinear_arith)
        requires
            0 <= base <= 255,
            0 <= iteration <= 0xffff_ffff_ffff_ffff,
    ;
    let exact: u128 = (base as u128) * (iteration as u128) / (MAX_ITERATIONS as u128);
    if exact >= 255 {
        255
    } else {
        exact as u8
    }
}

} // verus!
