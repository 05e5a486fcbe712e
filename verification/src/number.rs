//! A number of the configuration: a numeral, or a fraction of two numerals
//! that is read as a percentage.

use crate::error::ConfigurationError;
use crate::numeral::{is_numeral, Numeral};
use crate::text::{lemma_split_nonempty, parse_list, split};
use vstd::prelude::*;
use vstd::string::*;

verus! {

/// A number as the configuration gives it.
#[derive(Debug)]
pub enum Number {
    /// The value of the numeral.
    Plain(Numeral),
    /// The first numeral divided by the second, times one hundred.
    Ratio(Numeral, Numeral),
}

/// The text that a [`Number`] holds.
pub enum NumberText {
    Plain(Seq<char>),
    Ratio(Seq<char>, Seq<char>),
}

impl View for Number {
    type V = NumberText;

    open spec fn view(&self) -> NumberText {
        match self {
            Number::Plain(n) => NumberText::Plain(n@),
            Number::Ratio(n, d) => NumberText::Ratio(n@, d@),
        }
    }
}

impl DeepView for Number {
    type V = NumberText;

    open spec fn deep_view(&self) -> NumberText {
        self@
    }
}

/// The number that `s` stands for, if it stands for one. Text with a slash
/// in it is a ratio of its first two parts, and every part between slashes
/// has to be a numeral; text without a slash has to be a numeral itself.
pub open spec fn number_of(s: Seq<char>) -> Option<NumberText> {
    let parts = split(s, '/');
    if parts.len() >= 2 {
        if forall|i: int| 0 <= i < parts.len() ==> is_numeral(#[trigger] parts[i]) {
            Some(NumberText::Ratio(parts[0], parts[1]))
        } else {
            None
        }
    } else if is_numeral(s) {
        Some(NumberText::Plain(s))
    } else {
        None
    }
}

impl Number {
    /// A copy of the number.
    pub fn duplicate(&self) -> (copy: Number)
        ensures
            copy@ == self@,
    {
        match self {
            Number::Plain(n) => Number::Plain(n.duplicate()),
            Number::Ratio(n, d) => Number::Ratio(n.duplicate(), d.duplicate()),
        }
    }
}

/// Reads a number: `a/b` as the ratio of `a` to `b` in percent, anything
/// else as a plain numeral.
pub fn parse_number(num_string: &String) -> (number: Result<Number, ConfigurationError>)
    ensures
        match number {
            Ok(n) => number_of(num_string@) == Some(n@),
            Err(e) => e == ConfigurationError::NotANumber && number_of(num_string@) is None,
        },
{
    let parts = parse_list(num_string, '/');
    proof {
        lemma_split_nonempty(num_string@, '/');
    }
    if parts.len() < 2 {
        return match Numeral::parse(num_string.as_str()) {
            Some(n) => Ok(Number::Plain(n)),
            None => Err(ConfigurationError::NotANumber),
        };
    }
    let ghost texts = split(num_string@, '/');
    let mut first: Option<Numeral> = None;
    let mut second: Option<Numeral> = None;
    let mut i: usize = 0;
    while i < parts.len()
        invariant
            parts.deep_view() == texts,
            texts == split(num_string@, '/'),
            texts.len() >= 2,
            i <= parts.len(),
            forall|j: int| 0 <= j < i ==> is_numeral(#[trigger] texts[j]),
            i >= 1 ==> first is Some && first->0@ == texts[0],
            i >= 2 ==> second is Some && second->0@ == texts[1],
        decreases parts.len() - i,
    {
        assert(parts.deep_view()[i as int] == parts[i as int]@);
        match Numeral::parse(parts[i].as_str()) {
            None => {
                assert(!is_numeral(texts[i as int]));
                return Err(ConfigurationError::NotANumber);
            },
            Some(n) => {
                if i == 0 {
                    first = Some(n);
                } else if i == 1 {
                    second = Some(n);
                }
            },
        }
        i = i + 1;
    }
    match (first, second) {
        (Some(n), Some(d)) => Ok(Number::Ratio(n, d)),
        _ => Err(ConfigurationError::NotANumber),
    }
}

} // verus!
