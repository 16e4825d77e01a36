//! Box-drawing glyph lookup.
//!
//! A wall pixel is drawn as the box-drawing character whose arms point at
//! the neighboring wall pixels.  The connectivity mask is a `Directions`
//! value; the glyph family is picked by the pair (style of the vertical
//! arms, style of the horizontal arms).  Style pairs without a dedicated
//! glyph family fall back to the plain single-line family.

use vstd::prelude::*;

use crate::dir::Directions;

verus! {

/// A line style for one axis of a border glyph.
#[derive(Clone, Copy, Debug, PartialEq, Eq, Structural)]
pub enum BorderStyle {
    Single,
    Curved,
    Bold,
    Double,
}

/// Which glyph family a pair of axis styles selects.
#[derive(Clone, Copy, Debug, PartialEq, Eq, Structural)]
pub enum GlyphFamily {
    Single,
    Curved,
    Bold,
    BoldSingle,
    SingleBold,
    Double,
    DoubleSingle,
    SingleDouble,
}

/// The glyph family for (vertical-arm style, horizontal-arm style).
pub open spec fn spec_family(vertical: BorderStyle, horizontal: BorderStyle) -> GlyphFamily {
    match (vertical, horizontal) {
        (BorderStyle::Single, BorderStyle::Single) => GlyphFamily::Single,
        (BorderStyle::Curved, BorderStyle::Curved) => GlyphFamily::Curved,
        (BorderStyle::Bold, BorderStyle::Bold) => GlyphFamily::Bold,
        (BorderStyle::Bold, BorderStyle::Single) => GlyphFamily::BoldSingle,
        (BorderStyle::Bold, BorderStyle::Curved) => GlyphFamily::BoldSingle,
        (BorderStyle::Single, BorderStyle::Bold) => GlyphFamily::SingleBold,
        (BorderStyle::Curved, BorderStyle::Bold) => GlyphFamily::SingleBold,
        (BorderStyle::Double, BorderStyle::Double) => GlyphFamily::Double,
        (BorderStyle::Double, BorderStyle::Single) => GlyphFamily::DoubleSingle,
        (BorderStyle::Double, BorderStyle::Curved) => GlyphFamily::DoubleSingle,
        (BorderStyle::Single, BorderStyle::Double) => GlyphFamily::SingleDouble,
        (BorderStyle::Curved, BorderStyle::Double) => GlyphFamily::SingleDouble,
        _ => GlyphFamily::Single,
    }
}

/// The border glyph for a connectivity mask within one glyph family.
///
/// The mask is read as (north, east, south, west); an empty mask is blank.
pub open spec fn spec_family_glyph(family: GlyphFamily, d: Directions) -> char {
    match family {
        GlyphFamily::Single => match (d.north, d.east, d.south, d.west) {
            (false, false, false, false) => ' ',
            (true, false, false, false) => '\u{2575}',
            (false, true, false, false) => '\u{2576}',
            (true, true, false, false) => '\u{2514}',
            (false, false, true, false) => '\u{2577}',
            (true, false, true, false) => '\u{2502}',
            (false, true, true, false) => '\u{250c}',
            (true, true, true, false) => '\u{251c}',
            (false, false, false, true) => '\u{2574}',
            (true, false, false, true) => '\u{2518}',
            (false, true, false, true) => '\u{2500}',
            (true, true, false, true) => '\u{2534}',
            (false, false, true, true) => '\u{2510}',
            (true, false, true, true) => '\u{2524}',
            (false, true, true, true) => '\u{252c}',
            (true, true, true, true) => '\u{253c}',
        },
        GlyphFamily::Curved => match (d.north, d.east, d.south, d.west) {
            (false, false, false, false) => ' ',
            (true, false, false, false) => '\u{2575}',
            (false, true, false, false) => '\u{2576}',
            (true, true, false, false) => '\u{2570}',
            (false, false, true, false) => '\u{2577}',
            (true, false, true, false) => '\u{2502}',
            (false, true, true, false) => '\u{256d}',
            (true, true, true, false) => '\u{251c}',
            (false, false, false, true) => '\u{2574}',
            (true, false, false, true) => '\u{256f}',
            (false, true, false, true) => '\u{2500}',
            (true, true, false, true) => '\u{2534}',
            (false, false, true, true) => '\u{256e}',
            (true, false, true, true) => '\u{2524}',
            (false, true, true, true) => '\u{252c}',
            (true, true, true, true) => '\u{253c}',
        },
        GlyphFamily::Bold => match (d.north, d.east, d.south, d.west) {
            (false, false, false, false) => ' ',
            (true, false, false, false) => '\u{2579}',
            (false, true, false, false) => '\u{257a}',
            (true, true, false, false) => '\u{2517}',
            (false, false, true, false) => '\u{257b}',
            (true, false, true, false) => '\u{2503}',
            (false, true, true, false) => '\u{250f}',
            (true, true, true, false) => '\u{2523}',
            (false, false, false, true) => '\u{2578}',
            (true, false, false, true) => '\u{251b}',
            (false, true, false, true) => '\u{2501}',
            (true, true, false, true) => '\u{253b}',
            (false, false, true, true) => '\u{2513}',
            (true, false, true, true) => '\u{252b}',
            (false, true, true, true) => '\u{2533}',
            (true, true, true, true) => '\u{254b}',
        },
        GlyphFamily::BoldSingle => match (d.north, d.east, d.south, d.west) {
            (false, false, false, false) => ' ',
            (true, false, false, false) => '\u{2579}',
            (false, true, false, false) => '\u{2576}',
            (true, true, false, false) => '\u{2516}',
            (false, false, true, false) => '\u{257b}',
            (true, false, true, false) => '\u{2503}',
            (false, true, true, false) => '\u{250e}',
            (true, true, true, false) => '\u{2520}',
            (false, false, false, true) => '\u{2574}',
            (true, false, false, true) => '\u{251a}',
            (false, true, false, true) => '\u{2500}',
            (true, true, false, true) => '\u{2538}',
            (false, false, true, true) => '\u{2512}',
            (true, false, true, true) => '\u{2528}',
            (false, true, true, true) => '\u{2530}',
            (true, true, true, true) => '\u{2542}',
        },
        GlyphFamily::SingleBold => match (d.north, d.east, d.south, d.west) {
            (false, false, false, false) => ' ',
            (true, false, false, false) => '\u{2575}',
            (false, true, false, false) => '\u{257a}',
            (true, true, false, false) => '\u{2515}',
            (false, false, true, false) => '\u{2577}',
            (true, false, true, false) => '\u{2502}',
            (false, true, true, false) => '\u{250d}',
            (true, true, true, false) => '\u{251d}',
            (false, false, false, true) => '\u{2578}',
            (true, false, false, true) => '\u{2519}',
            (false, true, false, true) => '\u{2501}',
            (true, true, false, true) => '\u{2537}',
            (false, false, true, true) => '\u{2511}',
            (true, false, true, true) => '\u{2525}',
            (false, true, true, true) => '\u{252f}',
            (true, true, true, true) => '\u{253f}',
        },
        GlyphFamily::Double => match (d.north, d.east, d.south, d.west) {
            (false, false, false, false) => ' ',
            (true, false, false, false) => '\u{2551}',
            (false, true, false, false) => '\u{2550}',
            (true, true, false, false) => '\u{255a}',
            (false, false, true, false) => '\u{2551}',
            (true, false, true, false) => '\u{2551}',
            (false, true, true, false) => '\u{2554}',
            (true, true, true, false) => '\u{2560}',
            (false, false, false, true) => '\u{2550}',
            (true, false, false, true) => '\u{255d}',
            (false, true, false, true) => '\u{2550}',
            (true, true, false, true) => '\u{2569}',
            (false, false, true, true) => '\u{2557}',
            (true, false, true, true) => '\u{2563}',
            (false, true, true, true) => '\u{2566}',
            (true, true, true, true) => '\u{256c}',
        },
        GlyphFamily::DoubleSingle => match (d.north, d.east, d.south, d.west) {
            (false, false, false, false) => ' ',
            (true, false, false, false) => '\u{2551}',
            (false, true, false, false) => '\u{2576}',
            (true, true, false, false) => '\u{2559}',
            (false, false, true, false) => '\u{2551}',
            (true, false, true, false) => '\u{2551}',
            (false, true, true, false) => '\u{2553}',
            (true, true, true, false) => '\u{255f}',
            (false, false, false, true) => '\u{2574}',
            (true, false, false, true) => '\u{255c}',
            (false, true, false, true) => '\u{2500}',
            (true, true, false, true) => '\u{2568}',
            (false, false, true, true) => '\u{2556}',
            (true, false, true, true) => '\u{2562}',
            (false, true, true, true) => '\u{2565}',
            (true, true, true, true) => '\u{256b}',
        },
        GlyphFamily::SingleDouble => match (d.north, d.east, d.south, d.west) {
            (false, false, false, false) => ' ',
            (true, false, false, false) => '\u{2575}',
            (false, true, false, false) => '\u{2550}',
            (true, true, false, false) => '\u{2558}',
            (false, false, true, false) => '\u{2577}',
            (true, false, true, false) => '\u{2502}',
            (false, true, true, false) => '\u{2552}',
            (true, true, true, false) => '\u{255e}',
            (false, false, false, true) => '\u{2550}',
            (true, false, false, true) => '\u{255b}',
            (false, true, false, true) => '\u{2550}',
            (true, true, false, true) => '\u{2567}',
            (false, false, true, true) => '\u{2555}',
            (true, false, true, true) => '\u{2561}',
            (false, true, true, true) => '\u{2564}',
            (true, true, true, true) => '\u{256a}',
        },
    }
}

/// The glyph for a connectivity mask under a pair of axis styles.
pub open spec fn spec_border(d: Directions, vertical: BorderStyle, horizontal: BorderStyle) -> char {
    spec_family_glyph(spec_family(vertical, horizontal), d)
}

impl Directions {
    /// The box-drawing glyph whose arms point at the members of this set,
    /// with vertical arms in `vertical_style` and horizontal arms in
    /// `horizontal_style`.
    pub fn border(self, vertical_style: BorderStyle, horizontal_style: BorderStyle) -> (r: char)
        ensures
            r == spec_border(self, vertical_style, horizontal_style),
    {
        let family = match (vertical_style, horizontal_style) {
            (BorderStyle::Single, BorderStyle::Single) => GlyphFamily::Single,
            (BorderStyle::Curved, BorderStyle::Curved) => GlyphFamily::Curved,
            (BorderStyle::Bold, BorderStyle::Bold) => GlyphFamily::Bold,
            (BorderStyle::Bold, BorderStyle::Single) => GlyphFamily::BoldSingle,
            (BorderStyle::Bold, BorderStyle::Curved) => GlyphFamily::BoldSingle,
            (BorderStyle::Single, BorderStyle::Bold) => GlyphFamily::SingleBold,
            (BorderStyle::Curved, BorderStyle::Bold) => GlyphFamily::SingleBold,
            (BorderStyle::Double, BorderStyle::Double) => GlyphFamily::Double,
            (BorderStyle::Double, BorderStyle::Single) => GlyphFamily::DoubleSingle,
            (BorderStyle::Double, BorderStyle::Curved) => GlyphFamily::DoubleSingle,
            (BorderStyle::Single, BorderStyle::Double) => GlyphFamily::SingleDouble,
            (BorderStyle::Curved, BorderStyle::Double) => GlyphFamily::SingleDouble,
            _ => GlyphFamily::Single,
        };
        family_glyph(family, self)
    }
}

/// Executable twin of `spec_family_glyph`.
fn family_glyph(family: GlyphFamily, d: Directions) -> (r: char)
    ensures
        r == spec_family_glyph(family, d),
{
    match family {
        GlyphFamily::Single => match (d.north, d.east, d.south, d.west) {
            (false, false, false, false) => ' ',
            (true, false, false, false) => '\u{2575}',
            (false, true, false, false) => '\u{2576}',
            (true, true, false, false) => '\u{2514}',
            (false, false, true, false) => '\u{2577}',
            (true, false, true, false) => '\u{2502}',
            (false, true, true, false) => '\u{250c}',
            (true, true, true, false) => '\u{251c}',
            (false, false, false, true) => '\u{2574}',
            (true, false, false, true) => '\u{2518}',
            (false, true, false, true) => '\u{2500}',
            (true, true, false, true) => '\u{2534}',
            (false, false, true, true) => '\u{2510}',
            (true, false, true, true) => '\u{2524}',
            (false, true, true, true) => '\u{252c}',
            (true, true, true, true) => '\u{253c}',
        },
        GlyphFamily::Curved => match (d.north, d.east, d.south, d.west) {
            (false, false, false, false) => ' ',
            (true, false, false, false) => '\u{2575}',
            (false, true, false, false) => '\u{2576}',
            (true, true, false, false) => '\u{2570}',
            (false, false, true, false) => '\u{2577}',
            (true, false, true, false) => '\u{2502}',
            (false, true, true, false) => '\u{256d}',
            (true, true, true, false) => '\u{251c}',
            (false, false, false, true) => '\u{2574}',
            (true, false, false, true) => '\u{256f}',
            (false, true, false, true) => '\u{2500}',
            (true, true, false, true) => '\u{2534}',
            (false, false, true, true) => '\u{256e}',
            (true, false, true, true) => '\u{2524}',
            (false, true, true, true) => '\u{252c}',
            (true, true, true, true) => '\u{253c}',
        },
        GlyphFamily::Bold => match (d.north, d.east, d.south, d.west) {
            (false, false, false, false) => ' ',
            (true, false, false, false) => '\u{2579}',
            (false, true, false, false) => '\u{257a}',
            (true, true, false, false) => '\u{2517}',
            (false, false, true, false) => '\u{257b}',
            (true, false, true, false) => '\u{2503}',
            (false, true, true, false) => '\u{250f}',
            (true, true, true, false) => '\u{2523}',
            (false, false, false, true) => '\u{2578}',
            (true, false, false, true) => '\u{251b}',
            (false, true, false, true) => '\u{2501}',
            (true, true, false, true) => '\u{253b}',
            (false, false, true, true) => '\u{2513}',
            (true, false, true, true) => '\u{252b}',
            (false, true, true, true) => '\u{2533}',
            (true, true, true, true) => '\u{254b}',
        },
        GlyphFamily::BoldSingle => match (d.north, d.east, d.south, d.west) {
            (false, false, false, false) => ' ',
            (true, false, false, false) => '\u{2579}',
            (false, true, false, false) => '\u{2576}',
            (true, true, false, false) => '\u{2516}',
            (false, false, true, false) => '\u{257b}',
            (true, false, true, false) => '\u{2503}',
            (false, true, true, false) => '\u{250e}',
            (true, true, true, false) => '\u{2520}',
            (false, false, false, true) => '\u{2574}',
            (true, false, false, true) => '\u{251a}',
            (false, true, false, true) => '\u{2500}',
            (true, true, false, true) => '\u{2538}',
            (false, false, true, true) => '\u{2512}',
            (true, false, true, true) => '\u{2528}',
            (false, true, true, true) => '\u{2530}',
            (true, true, true, true) => '\u{2542}',
        },
        GlyphFamily::SingleBold => match (d.north, d.east, d.south, d.west) {
            (false, false, false, false) => ' ',
            (true, false, false, false) => '\u{2575}',
            (false, true, false, false) => '\u{257a}',
            (true, true, false, false) => '\u{2515}',
            (false, false, true, false) => '\u{2577}',
            (true, false, true, false) => '\u{2502}',
            (false, true, true, false) => '\u{250d}',
            (true, true, true, false) => '\u{251d}',
            (false, false, false, true) => '\u{2578}',
            (true, false, false, true) => '\u{2519}',
            (false, true, false, true) => '\u{2501}',
            (true, true, false, true) => '\u{2537}',
            (false, false, true, true) => '\u{2511}',
            (true, false, true, true) => '\u{2525}',
            (false, true, true, true) => '\u{252f}',
            (true, true, true, true) => '\u{253f}',
        },
        GlyphFamily::Double => match (d.north, d.east, d.south, d.west) {
            (false, false, false, false) => ' ',
            (true, false, false, false) => '\u{2551}',
            (false, true, false, false) => '\u{2550}',
            (true, true, false, false) => '\u{255a}',
            (false, false, true, false) => '\u{2551}',
            (true, false, true, false) => '\u{2551}',
            (false, true, true, false) => '\u{2554}',
            (true, true, true, false) => '\u{2560}',
            (false, false, false, true) => '\u{2550}',
            (true, false, false, true) => '\u{255d}',
            (false, true, false, true) => '\u{2550}',
            (true, true, false, true) => '\u{2569}',
            (false, false, true, true) => '\u{2557}',
            (true, false, true, true) => '\u{2563}',
            (false, true, true, true) => '\u{2566}',
            (true, true, true, true) => '\u{256c}',
        },
        GlyphFamily::DoubleSingle => match (d.north, d.east, d.south, d.west) {
            (false, false, false, false) => ' ',
            (true, false, false, false) => '\u{2551}',
            (false, true, false, false) => '\u{2576}',
            (true, true, false, false) => '\u{2559}',
            (false, false, true, false) => '\u{2551}',
            (true, false, true, false) => '\u{2551}',
            (false, true, true, false) => '\u{2553}',
            (true, true, true, false) => '\u{255f}',
            (false, false, false, true) => '\u{2574}',
            (true, false, false, true) => '\u{255c}',
            (false, true, false, true) => '\u{2500}',
            (true, true, false, true) => '\u{2568}',
            (false, false, true, true) => '\u{2556}',
            (true, false, true, true) => '\u{2562}',
            (false, true, true, true) => '\u{2565}',
            (true, true, true, true) => '\u{256b}',
        },
        GlyphFamily::SingleDouble => match (d.north, d.east, d.south, d.west) {
            (false, false, false, false) => ' ',
            (true, false, false, false) => '\u{2575}',
            (false, true, false, false) => '\u{2550}',
            (true, true, false, false) => '\u{2558}',
            (false, false, true, false) => '\u{2577}',
            (true, false, true, false) => '\u{2502}',
            (false, true, true, false) => '\u{2552}',
            (true, true, true, false) => '\u{255e}',
            (false, false, false, true) => '\u{2550}',
            (true, false, false, true) => '\u{255b}',
            (false, true, false, true) => '\u{2550}',
            (true, true, false, true) => '\u{2567}',
            (false, false, true, true) => '\u{2555}',
            (true, false, true, true) => '\u{2561}',
            (false, true, true, true) => '\u{2564}',
            (true, true, true, true) => '\u{256a}',
        },
    }
}

} // verus!
