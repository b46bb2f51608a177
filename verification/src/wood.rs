//! The change of dimension of wood with its moisture content.
use vstd::prelude::*;
use crate::text::{lowered, normal_text, same_text, trimmed};
use crate::units::{abs_int, div_round, lemma_product_bound, round_div, COORD_LIMIT, UNITS_PER_MM};

verus! {

/// How much a species shrinks or swells in each direction for one
/// percentage point of moisture content, in hundred-thousandths of the
/// dimension.
#[derive(Debug, Clone, Copy, PartialEq, Eq, Structural)]
pub struct SpeciesCoefficients {
    pub radial: i64,
    pub tangential: i64,
    pub longitudinal: i64,
}

/// The direction of a dimension in the wood.
#[derive(Debug, Clone, Copy, PartialEq, Eq, Structural)]
pub enum Direction {
    /// Along the grain.
    Length,
    /// Across the grain, along the growth rings.
    Width,
    /// Across the grain, across the growth rings.
    Thickness,
}

/// The divisor that brings a product of a length in millionths, a
/// coefficient in hundred-thousandths and a change in millionths of a
/// percentage point to thousandths of a millimetre.
pub const MICRON_DIVISOR: i128 = 100_000_000_000_000;

/// Millionths in one thousandth.
pub const MICRON: i64 = 1000;

/// The coefficients of a species, by its name in lower case.
pub open spec fn species_of(name: Seq<char>) -> Option<SpeciesCoefficients> {
    if name == "birch"@ || name == "birch ply"@ || name == "birch plywood"@ {
        Some(SpeciesCoefficients { radial: 27, tangential: 41, longitudinal: 2 })
    } else if name == "oak"@ || name == "red oak"@ || name == "white oak"@ {
        Some(SpeciesCoefficients { radial: 30, tangential: 38, longitudinal: 2 })
    } else if name == "maple"@ {
        Some(SpeciesCoefficients { radial: 29, tangential: 43, longitudinal: 2 })
    } else if name == "walnut"@ {
        Some(SpeciesCoefficients { radial: 28, tangential: 37, longitudinal: 2 })
    } else if name == "cherry"@ {
        Some(SpeciesCoefficients { radial: 27, tangential: 36, longitudinal: 2 })
    } else {
        None
    }
}

/// The direction that a word names, by the word in lower case.
pub open spec fn direction_of(word: Seq<char>) -> Option<Direction> {
    if word == "length"@ || word == "longitudinal"@ || word == "along_grain"@ {
        Some(Direction::Length)
    } else if word == "width"@ || word == "tangential"@ || word == "across_grain"@ {
        Some(Direction::Width)
    } else if word == "thickness"@ || word == "radial"@ {
        Some(Direction::Thickness)
    } else {
        None
    }
}

/// The coefficient of a species in a direction: longitudinal for the
/// length, tangential for the width, radial for the thickness.
pub open spec fn coefficient(c: SpeciesCoefficients, d: Direction) -> int {
    match d {
        Direction::Length => c.longitudinal as int,
        Direction::Width => c.tangential as int,
        Direction::Thickness => c.radial as int,
    }
}

/// The change of moisture content in millionths of a percentage point: a
/// change of at most one in magnitude is a fraction and counts a
/// hundredfold.
pub open spec fn normalized_change(delta_mc: int) -> int {
    if abs_int(delta_mc) <= UNITS_PER_MM {
        delta_mc * 100
    } else {
        delta_mc
    }
}

/// The change of a dimension of `len` millionths of a millimetre, in
/// millionths of a millimetre, rounded to thousandths of a millimetre:
/// nothing for a length that is not positive and for an unknown species or
/// direction, else the length times the coefficient times the change of
/// moisture content.
pub open spec fn dimension_change(len: int, species: Seq<char>, orient: Seq<char>, delta_mc: int) -> int {
    if len <= 0 {
        0
    } else {
        match species_of(lowered(trimmed(species))) {
            None => 0,
            Some(c) => match direction_of(lowered(trimmed(orient))) {
                None => 0,
                Some(d) => round_div(
                    len * coefficient(c, d) * normalized_change(delta_mc),
                    MICRON_DIVISOR as int,
                ) * MICRON,
            },
        }
    }
}

fn lookup_species(species: &str) -> (r: Option<SpeciesCoefficients>)
    ensures
        r == species_of(lowered(trimmed(species@))),
        r matches Some(c) ==> 0 < c.radial <= 64 && 0 < c.tangential <= 64 && 0 < c.longitudinal
            <= 64,
{
    let name = normal_text(species);
    if same_text(&name, "birch") || same_text(&name, "birch ply") || same_text(
        &name,
        "birch plywood",
    ) {
        Some(SpeciesCoefficients { radial: 27, tangential: 41, longitudinal: 2 })
    } else if same_text(&name, "oak") || same_text(&name, "red oak") || same_text(
        &name,
        "white oak",
    ) {
        Some(SpeciesCoefficients { radial: 30, tangential: 38, longitudinal: 2 })
    } else if same_text(&name, "maple") {
        Some(SpeciesCoefficients { radial: 29, tangential: 43, longitudinal: 2 })
    } else if same_text(&name, "walnut") {
        Some(SpeciesCoefficients { radial: 28, tangential: 37, longitudinal: 2 })
    } else if same_text(&name, "cherry") {
        Some(SpeciesCoefficients { radial: 27, tangential: 36, longitudinal: 2 })
    } else {
        None
    }
}

fn parse_direction(orient: &str) -> (r: Option<Direction>)
    ensures
        r == direction_of(lowered(trimmed(orient@))),
{
    let word = normal_text(orient);
    if same_text(&word, "length") || same_text(&word, "longitudinal") || same_text(
        &word,
        "along_grain",
    ) {
        Some(Direction::Length)
    } else if same_text(&word, "width") || same_text(&word, "tangential") || same_text(
        &word,
        "across_grain",
    ) {
        Some(Direction::Width)
    } else if same_text(&word, "thickness") || same_text(&word, "radial") {
        Some(Direction::Thickness)
    } else {
        None
    }
}

/// Estimates the change of a dimension of a member of wood whose moisture
/// content changes by `delta_mc`, given in percentage points or, where its
/// magnitude is at most one, as a fraction. Lengths are counts of
/// millionths of a millimetre, the change of moisture content is a count of
/// millionths. The response is linear, with one coefficient for each
/// species and direction.
pub fn delta_dim(len: i64, species: &str, orient: &str, delta_mc: i64) -> (r: i64)
    requires
        len <= COORD_LIMIT,
        abs_int(delta_mc as int) <= COORD_LIMIT,
    ensures
        r == dimension_change(len as int, species@, orient@, delta_mc as int),
{
    if len <= 0 {
        return 0;
    }
    let coefficients = match lookup_species(species) {
        Some(c) => c,
        None => {
            return 0;
        },
    };
    let direction = match parse_direction(orient) {
        Some(d) => d,
        None => {
            return 0;
        },
    };
    let change: i128 = if delta_mc <= UNITS_PER_MM && delta_mc >= -UNITS_PER_MM {
        (delta_mc as i128) * 100
    } else {
        delta_mc as i128
    };
    let c: i64 = match direction {
        Direction::Length => coefficients.longitudinal,
        Direction::Width => coefficients.tangential,
        Direction::Thickness => coefficients.radial,
    };
    proof {
        lemma_product_bound(len as int, c as int, COORD_LIMIT as int, 64);
        lemma_product_bound(len * c, change as int, COORD_LIMIT * 64, COORD_LIMIT as int);
        assert(274_877_906_944int * 64 * 274_877_906_944int
            == 4_835_703_278_458_516_698_824_704int) by (nonlinear_arith);
    }
    let scaled: i128 = (len as i128) * (c as i128);
    let product: i128 = scaled * change;
    let microns = div_round(product, MICRON_DIVISOR);
    proof {
        let m = abs_int(product as int);
        assert(m <= 4_835_703_278_458_516_698_824_704int);
        assert((m + MICRON_DIVISOR / 2) / (MICRON_DIVISOR as int) <= 48_357_032_785);
    }
    (microns * (MICRON as i128)) as i64
}

} // verus!
