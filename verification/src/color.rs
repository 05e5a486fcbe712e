//! The strategies that turn a shade into a colour, with their parameters.
//!
//! A strategy is chosen once, when the configuration is read, and holds its
//! parameters as the numerals that were given.

use crate::error::ConfigurationError;
use crate::numeral::{is_numeral, Numeral};
use crate::text::split;
use vstd::prelude::*;

verus! {

/// A triangular wave per channel that runs through the animation: an offset
/// for each of red, green and blue, and a saturation factor.
#[derive(Debug)]
pub struct Sawtooth {
    pub red: Numeral,
    pub green: Numeral,
    pub blue: Numeral,
    pub scalar: Numeral,
}

/// Grey levels, shifted by a brightness.
#[derive(Debug)]
pub struct Greyscale {
    pub brightness: Numeral,
}

/// A straight blend between two colours.
#[derive(Debug)]
pub struct TwoTone {
    pub red1: Numeral,
    pub green1: Numeral,
    pub blue1: Numeral,
    pub red2: Numeral,
    pub green2: Numeral,
    pub blue2: Numeral,
}

/// The strategy in use, with its parameters.
#[derive(Debug)]
pub enum Palette {
    Sawtooth(Sawtooth),
    Greyscale(Greyscale),
    TwoTone(TwoTone),
}

/// What a [`Palette`] holds, as text: the parameters in the order of the
/// fields.
pub enum PaletteText {
    Sawtooth(Seq<Seq<char>>),
    Greyscale(Seq<Seq<char>>),
    TwoTone(Seq<Seq<char>>),
}

impl View for Palette {
    type V = PaletteText;

    open spec fn view(&self) -> PaletteText {
        match self {
            Palette::Sawtooth(s) => PaletteText::Sawtooth(
                seq![s.red@, s.green@, s.blue@, s.scalar@],
            ),
            Palette::Greyscale(g) => PaletteText::Greyscale(seq![g.brightness@]),
            Palette::TwoTone(t) => PaletteText::TwoTone(
                seq![t.red1@, t.green1@, t.blue1@, t.red2@, t.green2@, t.blue2@],
            ),
        }
    }
}

/// Every piece is a numeral.
pub open spec fn all_numerals(pieces: Seq<Seq<char>>) -> bool {
    forall|i: int| 0 <= i < pieces.len() ==> is_numeral(#[trigger] pieces[i])
}

/// How many parameters the strategy of this name takes, if there is a
/// strategy of this name: `sawtooth` takes four, `greyscale` one and
/// `twotone` six.
pub open spec fn arity_of(name: Seq<char>) -> Option<nat> {
    if name == "sawtooth"@ {
        Some(4nat)
    } else if name == "greyscale"@ {
        Some(1nat)
    } else if name == "twotone"@ {
        Some(6nat)
    } else {
        None
    }
}

/// The strategy that the colorizer values select, or the reason why they
/// select none. The first value is the name, the second the parameters with
/// commas between them; further values are not looked at. The name has to
/// be that of a strategy, every parameter has to be a numeral, and there
/// have to be as many parameters as the strategy takes.
pub open spec fn palette_of(values: Seq<Seq<char>>) -> Result<PaletteText, ConfigurationError> {
    if values.len() < 2 {
        Err(ConfigurationError::MissingColorizer)
    } else {
        let params = split(values[1], ',');
        match arity_of(values[0]) {
            None => Err(ConfigurationError::UnknownColorizer),
            Some(arity) => if !all_numerals(params) {
                Err(ConfigurationError::NotANumber)
            } else if params.len() != arity {
                Err(ConfigurationError::WrongArity)
            } else if values[0] == "sawtooth"@ {
                Ok(PaletteText::Sawtooth(params))
            } else if values[0] == "greyscale"@ {
                Ok(PaletteText::Greyscale(params))
            } else {
                Ok(PaletteText::TwoTone(params))
            },
        }
    }
}

} // verus!
