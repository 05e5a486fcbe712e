//! Numbers as they are written in a configuration string.
//!
//! A numeral is text in the decimal floating-point notation: an optional
//! sign, then either one of the words `inf`, `infinity`, `nan` in any mix of
//! upper and lower case, or digits with an optional point and an optional
//! exponent. The library keeps numerals as checked text; turning them into
//! machine numbers is left to the caller. Whole numbers, which are digits
//! and nothing else, are read here.

use vstd::prelude::*;
use vstd::string::*;

verus! {

/// One of the ten decimal digits.
pub open spec fn is_digit(c: char) -> bool {
    '0' <= c && c <= '9'
}

/// Every character of `s` is a decimal digit.
pub open spec fn all_digits(s: Seq<char>) -> bool {
    forall|i: int| 0 <= i < s.len() ==> is_digit(#[trigger] s[i])
}

/// The number that a digit stands for; zero for any other character.
pub open spec fn digit_value(c: char) -> nat {
    if c == '1' {
        1
    } else if c == '2' {
        2
    } else if c == '3' {
        3
    } else if c == '4' {
        4
    } else if c == '5' {
        5
    } else if c == '6' {
        6
    } else if c == '7' {
        7
    } else if c == '8' {
        8
    } else if c == '9' {
        9
    } else {
        0
    }
}

/// The number that a run of digits stands for, read in base ten.
pub open spec fn whole_value(digits: Seq<char>) -> nat
    decreases digits.len(),
{
    if digits.len() == 0 {
        0
    } else {
        whole_value(digits.drop_last()) * 10 + digit_value(digits.last())
    }
}

/// `s` is a whole number that a 32-bit counter holds: one or more digits
/// and nothing else, with a value of at most `u32::MAX`.
pub open spec fn is_whole(s: Seq<char>) -> bool {
    s.len() > 0 && all_digits(s) && whole_value(s) <= u32::MAX
}

/// What the first digits of a run stand for is no more than what the whole
/// run stands for.
pub proof fn lemma_whole_value_grows(digits: Seq<char>, n: int)
    requires
        0 <= n <= digits.len(),
    ensures
        whole_value(digits.take(n)) <= whole_value(digits),
    decreases digits.len(),
{
    if n == digits.len() {
        assert(digits.take(n) == digits);
    } else {
        assert(digits.drop_last().take(n) == digits.take(n));
        lemma_whole_value_grows(digits.drop_last(), n);
    }
}

/// A plus or a minus sign.
pub open spec fn is_sign(c: char) -> bool {
    c == '+' || c == '-'
}

/// `s` without its leading sign, if it has one.
pub open spec fn unsigned_part(s: Seq<char>) -> Seq<char> {
    if s.len() > 0 && is_sign(s[0]) {
        s.skip(1)
    } else {
        s
    }
}

/// Digits with at most one point among them, and at least one digit.
pub open spec fn is_mantissa(s: Seq<char>) -> bool {
    exists|dot: int| #[trigger] mantissa_with_point_at(s, dot)
}

/// `s` is a mantissa whose digits before the point end at `dot`; where
/// `dot` is the length of `s` there is no point.
pub open spec fn mantissa_with_point_at(s: Seq<char>, dot: int) -> bool {
    &&& 0 <= dot <= s.len()
    &&& all_digits(s.take(dot))
    &&& if dot == s.len() {
        dot > 0
    } else {
        s[dot] == '.' && all_digits(s.skip(dot + 1)) && s.len() > 1
    }
}

/// The letter `e` in either case, an optional sign, and one or more digits.
pub open spec fn is_exponent(s: Seq<char>) -> bool {
    &&& s.len() >= 1
    &&& (s[0] == 'e' || s[0] == 'E')
    &&& unsigned_part(s.skip(1)).len() >= 1
    &&& all_digits(unsigned_part(s.skip(1)))
}

/// A mantissa, optionally followed by an exponent.
pub open spec fn is_decimal(s: Seq<char>) -> bool {
    exists|cut: int| #[trigger] decimal_with_exponent_at(s, cut)
}

/// `s` is a decimal whose mantissa ends at `cut`; where `cut` is the length
/// of `s` there is no exponent.
pub open spec fn decimal_with_exponent_at(s: Seq<char>, cut: int) -> bool {
    &&& 0 <= cut <= s.len()
    &&& is_mantissa(s.take(cut))
    &&& (cut == s.len() || is_exponent(s.skip(cut)))
}

/// The lower-case form of the letters that the special words are made of;
/// every other character stands for itself.
pub open spec fn lower(c: char) -> char {
    if c == 'I' {
        'i'
    } else if c == 'N' {
        'n'
    } else if c == 'F' {
        'f'
    } else if c == 'T' {
        't'
    } else if c == 'Y' {
        'y'
    } else if c == 'A' {
        'a'
    } else {
        c
    }
}

/// `s` spells `word`, which is in lower case, in any mix of cases.
pub open spec fn spells(s: Seq<char>, word: Seq<char>) -> bool {
    &&& s.len() == word.len()
    &&& forall|i: int| 0 <= i < s.len() ==> lower(#[trigger] s[i]) == word[i]
}

/// `s` is one of the words for the values that are not finite numbers.
pub open spec fn is_special(s: Seq<char>) -> bool {
    spells(s, "inf"@) || spells(s, "infinity"@) || spells(s, "nan"@)
}

/// `s` is a numeral: an optional sign, then a special word or a decimal.
pub open spec fn is_numeral(s: Seq<char>) -> bool {
    is_special(unsigned_part(s)) || is_decimal(unsigned_part(s))
}

fn digit_of(c: char) -> (d: u64)
    ensures
        d == digit_value(c),
        d <= 9,
{
    if c == '1' {
        1
    } else if c == '2' {
        2
    } else if c == '3' {
        3
    } else if c == '4' {
        4
    } else if c == '5' {
        5
    } else if c == '6' {
        6
    } else if c == '7' {
        7
    } else if c == '8' {
        8
    } else if c == '9' {
        9
    } else {
        0
    }
}

/// Reads `text` as a whole number that a 32-bit counter holds.
pub fn parse_whole(text: &str) -> (number: Option<u32>)
    ensures
        number is Some <==> is_whole(text@),
        number matches Some(n) ==> n == whole_value(text@),
{
    let len = text.unicode_len();
    if len == 0 {
        return None;
    }
    let mut value: u64 = 0;
    let mut i: usize = 0;
    assert(text@.take(0) == Seq::<char>::empty());
    while i < len
        invariant
            len == text@.len(),
            i <= len,
            value == whole_value(text@.take(i as int)),
            value <= u32::MAX,
            forall|j: int| 0 <= j < i ==> is_digit(#[trigger] text@[j]),
        decreases len - i,
    {
        let c = text.get_char(i);
        if !('0' <= c && c <= '9') {
            return None;
        }
        proof {
            assert(text@.take(i as int + 1).drop_last() == text@.take(i as int));
            assert(text@.take(i as int + 1).last() == c);
        }
        value = value * 10 + digit_of(c);
        if value > u32::MAX as u64 {
            proof {
                lemma_whole_value_grows(text@, i as int + 1);
            }
            return None;
        }
        i = i + 1;
    }
    assert(text@.take(len as int) == text@);
    Some(value as u32)
}

fn lower_char(c: char) -> (l: char)
    ensures
        l == lower(c),
{
    if c == 'I' {
        'i'
    } else if c == 'N' {
        'n'
    } else if c == 'F' {
        'f'
    } else if c == 'T' {
        't'
    } else if c == 'Y' {
        'y'
    } else if c == 'A' {
        'a'
    } else {
        c
    }
}

fn spells_word(text: &str, word: &str) -> (b: bool)
    ensures
        b == spells(text@, word@),
{
    let len = text.unicode_len();
    if len != word.unicode_len() {
        return false;
    }
    let mut i: usize = 0;
    while i < len
        invariant
            len == text@.len(),
            len == word@.len(),
            i <= len,
            forall|j: int| 0 <= j < i ==> lower(#[trigger] text@[j]) == word@[j],
        decreases len - i,
    {
        if lower_char(text.get_char(i)) != word.get_char(i) {
            return false;
        }
        i = i + 1;
    }
    true
}

/// The end of the run of digits that starts at `from`.
fn digits_end(text: &str, from: usize) -> (to: usize)
    requires
        from <= text@.len(),
    ensures
        from <= to <= text@.len(),
        forall|i: int| from <= i < to ==> is_digit(#[trigger] text@[i]),
        to < text@.len() ==> !is_digit(text@[to as int]),
{
    let len = text.unicode_len();
    let mut to: usize = from;
    while to < len
        invariant
            len == text@.len(),
            from <= to <= len,
            forall|i: int| from <= i < to ==> is_digit(#[trigger] text@[i]),
        decreases len - to,
    {
        let c = text.get_char(to);
        if !('0' <= c && c <= '9') {
            return to;
        }
        to = to + 1;
    }
    to
}

fn is_exponent_text(text: &str) -> (b: bool)
    ensures
        b == is_exponent(text@),
{
    let len = text.unicode_len();
    if len < 1 {
        return false;
    }
    let e = text.get_char(0);
    if e != 'e' && e != 'E' {
        return false;
    }
    let mut from: usize = 1;
    if len > 1 {
        let sign = text.get_char(1);
        if sign == '+' || sign == '-' {
            from = 2;
        }
    }
    let to = digits_end(text, from);
    proof {
        let tail = text@.skip(1);
        let digits = unsigned_part(tail);
        assert(digits == text@.skip(from as int)) by {
            if from == 2 {
                assert(tail[0] == text@[1]);
                assert(tail.skip(1) == text@.skip(2));
            } else if len > 1 {
                assert(tail[0] == text@[1]);
            }
        }
        if to == len {
            assert forall|i: int| 0 <= i < digits.len() implies is_digit(#[trigger] digits[i]) by {
                assert(digits[i] == text@[from + i]);
            }
        } else {
            assert(digits[to - from] == text@[to as int]);
        }
    }
    to == len && to > from
}

fn is_decimal_text(text: &str) -> (b: bool)
    ensures
        b == is_decimal(text@),
{
    let len = text.unicode_len();
    let whole_end = digits_end(text, 0);
    let dotted = whole_end < len && text.get_char(whole_end) == '.';
    let cut = if dotted {
        digits_end(text, whole_end + 1)
    } else {
        whole_end
    };
    let enough = if dotted {
        cut >= 2
    } else {
        cut >= 1
    };
    let tail_ok = if cut == len {
        true
    } else {
        is_exponent_text(text.substring_char(cut, len))
    };
    proof {
        let s = text@;
        let j = whole_end as int;
        let k = cut as int;
        assert(s.subrange(k, len as int) == s.skip(k));
        if enough && tail_ok {
            let m = s.take(k);
            assert(mantissa_with_point_at(m, j)) by {
                assert forall|i: int| 0 <= i < m.take(j).len() implies is_digit(
                    #[trigger] m.take(j)[i],
                ) by {
                    assert(m.take(j)[i] == s[i]);
                }
                if dotted {
                    assert(m[j] == s[j]);
                    assert forall|i: int| 0 <= i < m.skip(j + 1).len() implies is_digit(
                        #[trigger] m.skip(j + 1)[i],
                    ) by {
                        assert(m.skip(j + 1)[i] == s[j + 1 + i]);
                    }
                }
            }
            assert(decimal_with_exponent_at(s, k));
        } else {
            assert forall|c: int| !#[trigger] decimal_with_exponent_at(s, c) by {
                if decimal_with_exponent_at(s, c) {
                    let m = s.take(c);
                    let d = choose|d: int| #[trigger] mantissa_with_point_at(m, d);
                    // the digits before the point stop where the scan stopped
                    if d > j {
                        assert(m.take(d)[j] == s[j]);
                    }
                    if c < len {
                        assert(s.skip(c)[0] == s[c]);
                    }
                    if d < c {
                        assert(m[d] == s[d]);
                        assert(d == j);
                        if c > k {
                            assert(m.skip(d + 1)[k - d - 1] == s[k]);
                        }
                        assert(c == k);
                    } else {
                        assert(c == j);
                    }
                }
            }
        }
    }
    enough && tail_ok
}

/// A numeral: text that has been checked to be one.
#[derive(Debug)]
pub struct Numeral {
    text: String,
}

impl View for Numeral {
    type V = Seq<char>;

    closed spec fn view(&self) -> Seq<char> {
        self.text@
    }
}

impl DeepView for Numeral {
    type V = Seq<char>;

    open spec fn deep_view(&self) -> Seq<char> {
        self@
    }
}

impl Numeral {
    #[verifier::type_invariant]
    spec fn well_formed(self) -> bool {
        is_numeral(self.text@)
    }

    /// Checks `text` and keeps it if it is a numeral.
    pub fn parse(text: &str) -> (numeral: Option<Numeral>)
        ensures
            numeral is Some <==> is_numeral(text@),
            numeral matches Some(n) ==> n@ == text@,
    {
        let len = text.unicode_len();
        let signed = len > 0 && (text.get_char(0) == '+' || text.get_char(0) == '-');
        let body = if signed {
            text.substring_char(1, len)
        } else {
            text
        };
        proof {
            if signed {
                assert(text@.subrange(1, len as int) == text@.skip(1));
            }
            assert(body@ == unsigned_part(text@));
        }
        if spells_word(body, "inf") || spells_word(body, "infinity") || spells_word(body, "nan")
            || is_decimal_text(body) {
            Some(Numeral { text: String::from_str(text) })
        } else {
            None
        }
    }

    /// The numeral as it was written.
    pub fn as_str(&self) -> (text: &str)
        ensures
            text@ == self@,
            is_numeral(text@),
    {
        proof {
            use_type_invariant(self);
        }
        self.text.as_str()
    }

    /// A copy of the numeral.
    pub fn duplicate(&self) -> (copy: Numeral)
        ensures
            copy@ == self@,
    {
        proof {
            use_type_invariant(self);
        }
        Numeral { text: self.text.clone() }
    }
}

} // verus!
