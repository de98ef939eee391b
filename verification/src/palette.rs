//! The brand palette as displayable 8-bit RGB.

use vstd::prelude::*;

verus! {

/// One displayable colour: three 8-bit channels.
#[derive(Clone, Copy, Debug, PartialEq, Eq, Structural)]
pub struct Rgb {
    pub r: u8,
    pub g: u8,
    pub b: u8,
}

/// The secondary brand colour: the sRGB rendering of
/// `oklch(0.4820 0.0825 206.0615)`.
pub open spec fn secondary() -> Rgb {
    Rgb { r: 0, g: 107, b: 117 }
}

/// The primary brand colour: the sRGB rendering of
/// `oklch(0.5855 0.1006 208.0245)`.
pub open spec fn primary() -> Rgb {
    Rgb { r: 0, g: 140, b: 155 }
}

/// The accent brand colour: the sRGB rendering of
/// `oklch(0.6697 0.1154 208.9445)`.
pub open spec fn accent() -> Rgb {
    Rgb { r: 0, g: 168, b: 187 }
}

/// The light-blue gradient stops: secondary, primary, accent, in that order.
pub open spec fn light_blue_stops_spec() -> Seq<Rgb> {
    seq![secondary(), primary(), accent()]
}

/// Returns the three stops of the light-blue brand gradient. Every call
/// returns the same three colours.
pub fn light_blue_stops() -> (stops: [Rgb; 3])
    ensures
        stops@ == light_blue_stops_spec(),
{
    let stops = [
        Rgb { r: 0, g: 107, b: 117 },
        Rgb { r: 0, g: 140, b: 155 },
        Rgb { r: 0, g: 168, b: 187 },
    ];
    assert(stops@ =~= light_blue_stops_spec());
    stops
}

/// The fixed two-colour preset: pure green, then pure blue.
pub open spec fn dna_preset_spec() -> (Rgb, Rgb) {
    (Rgb { r: 0, g: 255, b: 0 }, Rgb { r: 0, g: 0, b: 255 })
}

/// Returns the fixed two-colour preset.
pub fn dna_preset() -> (pair: (Rgb, Rgb))
    ensures
        pair == dna_preset_spec(),
{
    (Rgb { r: 0, g: 255, b: 0 }, Rgb { r: 0, g: 0, b: 255 })
}

} // verus!
