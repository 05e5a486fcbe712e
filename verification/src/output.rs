//! What a frame is rendered from, and where a rendered frame goes.

use crate::angles::{AngleSpec, AngleSpecText};
use crate::animation::{Keyframe, KeyframeText};
use crate::numeral::whole_value;
use crate::text::same_text;
use vstd::prelude::*;
use vstd::string::*;

verus! {

/// Everything that one frame is rendered from, but for the colorizer.
#[derive(Debug)]
pub struct Image {
    /// The number of phases that the waves go through in the animation.
    pub phases: Keyframe,
    /// The index of the frame.
    pub frame: u32,
    /// The number of frames in the animation.
    pub frames: u32,
    /// Scaling factor; lower is more zoomed in.
    pub scale: u32,
    /// Width in pixels.
    pub width: u32,
    /// Height in pixels.
    pub height: u32,
    /// Horizontal viewport offset in pixels.
    pub x_offset: u32,
    /// Vertical viewport offset in pixels.
    pub y_offset: u32,
    /// The angles of the waves.
    pub angles: AngleSpec,
}

/// What an [`Image`] holds, with its text as sequences of characters.
pub struct ImageText {
    pub phases: KeyframeText,
    pub frame: u32,
    pub frames: u32,
    pub scale: u32,
    pub width: u32,
    pub height: u32,
    pub x_offset: u32,
    pub y_offset: u32,
    pub angles: AngleSpecText,
}

impl View for Image {
    type V = ImageText;

    open spec fn view(&self) -> ImageText {
        ImageText {
            phases: self.phases@,
            frame: self.frame,
            frames: self.frames,
            scale: self.scale,
            width: self.width,
            height: self.height,
            x_offset: self.x_offset,
            y_offset: self.y_offset,
            angles: self.angles@,
        }
    }
}

impl Image {
    /// The longer side of the image, by which the viewport is normalised.
    pub open spec fn spec_max_dim(&self) -> u32 {
        if self.width >= self.height {
            self.width
        } else {
            self.height
        }
    }

    /// The longer side of the image, by which the viewport is normalised.
    #[verifier::when_used_as_spec(spec_max_dim)]
    pub fn max_dim(&self) -> (side: u32)
        ensures
            side == self.spec_max_dim(),
            side >= self.width,
            side >= self.height,
            side == self.width || side == self.height,
    {
        if self.width >= self.height {
            self.width
        } else {
            self.height
        }
    }
}

/// The character of a digit.
pub open spec fn digit_char(d: nat) -> char {
    if d == 0 {
        '0'
    } else if d == 1 {
        '1'
    } else if d == 2 {
        '2'
    } else if d == 3 {
        '3'
    } else if d == 4 {
        '4'
    } else if d == 5 {
        '5'
    } else if d == 6 {
        '6'
    } else if d == 7 {
        '7'
    } else if d == 8 {
        '8'
    } else {
        '9'
    }
}

/// The decimal digits of `n`, most significant first, without leading zeros
/// but for zero itself.
pub open spec fn decimal(n: nat) -> Seq<char>
    decreases n,
{
    if n < 10 {
        seq![digit_char(n)]
    } else {
        decimal(n / 10).push(digit_char(n % 10))
    }
}

/// `count` zeros.
pub open spec fn zeros(count: nat) -> Seq<char> {
    Seq::new(count, |i: int| '0')
}

/// The decimal digits of `n` with zeros in front up to a length of `width`;
/// a number with more digits than that is written in full.
pub open spec fn padded(n: nat, width: nat) -> Seq<char> {
    if decimal(n).len() >= width {
        decimal(n)
    } else {
        zeros((width - decimal(n).len()) as nat) + decimal(n)
    }
}

/// The name of the file that a frame is saved in: the frame's index in six
/// digits or more, a point, and the format as the extension.
pub open spec fn file_name(frame: u32, format: Seq<char>) -> Seq<char> {
    padded(frame as nat, 6) + seq!['.'] + format
}

/// The digits of a number stand for that number.
proof fn lemma_whole_value(n: nat)
    ensures
        whole_value(decimal(n)) == n,
    decreases n,
{
    if n < 10 {
        let d = seq![digit_char(n)];
        assert(d.drop_last() == Seq::<char>::empty());
        assert(whole_value(d.drop_last()) == 0);
    } else {
        lemma_whole_value(n / 10);
        let d = decimal(n / 10).push(digit_char(n % 10));
        assert(d.drop_last() == decimal(n / 10));
    }
}

/// Zeros in front do not change what a run of digits stands for.
proof fn lemma_leading_zeros(count: nat, digits: Seq<char>)
    ensures
        whole_value(zeros(count) + digits) == whole_value(digits),
    decreases digits.len(), count,
{
    let all = zeros(count) + digits;
    if digits.len() == 0 {
        assert(all == zeros(count));
        if count > 0 {
            assert(zeros(count).drop_last() == zeros((count - 1) as nat) + digits);
            lemma_leading_zeros((count - 1) as nat, digits);
        }
    } else {
        assert(all.drop_last() == zeros(count) + digits.drop_last());
        lemma_leading_zeros(count, digits.drop_last());
    }
}

/// Different frames are saved under different names, so no two frames of a
/// run are written to the same file.
pub proof fn lemma_file_names_differ(first: u32, second: u32, format: Seq<char>)
    requires
        first != second,
    ensures
        file_name(first, format) != file_name(second, format),
{
    let a = padded(first as nat, 6);
    let b = padded(second as nat, 6);
    let tail = seq!['.'] + format;
    if file_name(first, format) == file_name(second, format) {
        assert(a + seq!['.'] + format == a + tail);
        assert(b + seq!['.'] + format == b + tail);
        assert((a + tail).len() == (b + tail).len());
        assert((a + tail).subrange(0, a.len() as int) == a);
        assert((b + tail).subrange(0, b.len() as int) == b);
        assert(a == b);
        lemma_whole_value(first as nat);
        lemma_whole_value(second as nat);
        if decimal(first as nat).len() < 6 {
            lemma_leading_zeros((6 - decimal(first as nat).len()) as nat, decimal(first as nat));
        }
        if decimal(second as nat).len() < 6 {
            lemma_leading_zeros(
                (6 - decimal(second as nat).len()) as nat,
                decimal(second as nat),
            );
        }
        assert(whole_value(a) == first);
        assert(whole_value(b) == second);
    }
}

fn digit_text(d: u32) -> (text: &'static str)
    requires
        d < 10,
    ensures
        text@ == seq![digit_char(d as nat)],
{
    proof {
        reveal_strlit("0");
        reveal_strlit("1");
        reveal_strlit("2");
        reveal_strlit("3");
        reveal_strlit("4");
        reveal_strlit("5");
        reveal_strlit("6");
        reveal_strlit("7");
        reveal_strlit("8");
        reveal_strlit("9");
    }
    let text = if d == 0 {
        "0"
    } else if d == 1 {
        "1"
    } else if d == 2 {
        "2"
    } else if d == 3 {
        "3"
    } else if d == 4 {
        "4"
    } else if d == 5 {
        "5"
    } else if d == 6 {
        "6"
    } else if d == 7 {
        "7"
    } else if d == 8 {
        "8"
    } else {
        "9"
    };
    assert(text@ =~= seq![digit_char(d as nat)]);
    text
}

/// Writes the decimal digits of `n` at the end of `text` and returns how
/// many there are.
fn append_decimal(text: &mut String, n: u32) -> (count: usize)
    ensures
        final(text)@ == old(text)@ + decimal(n as nat),
        count == decimal(n as nat).len(),
        1 <= count <= 10,
    decreases n,
{
    if n < 10 {
        text.append(digit_text(n));
        1
    } else {
        let count = append_decimal(text, n / 10);
        text.append(digit_text(n % 10));
        proof {
            assert(text@ =~= old(text)@ + decimal(n as nat));
            lemma_decimal_len(n as nat);
        }
        count + 1
    }
}

/// Ten to the power of `k`.
spec fn ten_to(k: nat) -> nat
    decreases k,
{
    if k == 0 {
        1
    } else {
        10 * ten_to((k - 1) as nat)
    }
}

/// A number below ten to the `k` has at most `k` digits.
proof fn lemma_decimal_bound(n: nat, k: nat)
    requires
        k >= 1,
        n < ten_to(k),
    ensures
        decimal(n).len() <= k,
    decreases n,
{
    if n >= 10 {
        if k == 1 {
            assert(ten_to(1) == 10) by {
                reveal_with_fuel(ten_to, 2);
            }
        } else {
            lemma_decimal_bound(n / 10, (k - 1) as nat);
        }
    }
}

/// A 32-bit number has at most ten digits.
proof fn lemma_decimal_len(n: nat)
    requires
        n <= u32::MAX,
    ensures
        decimal(n).len() <= 10,
{
    assert(ten_to(10) == 10000000000) by {
        reveal_with_fuel(ten_to, 11);
    }
    lemma_decimal_bound(n, 10);
}

/// The name of the file that frame `frame` is saved in with `format`.
pub fn frame_file_name(frame: u32, format: &str) -> (name: String)
    ensures
        name@ == file_name(frame, format@),
{
    let mut digits = String::new();
    let count = append_decimal(&mut digits, frame);
    assert(digits@ =~= decimal(frame as nat));
    let mut name = String::new();
    let mut written: usize = count;
    while written < 6
        invariant
            count <= written,
            written <= 6 || written == count,
            name@ == zeros((written - count) as nat),
        decreases 6 - written,
    {
        proof {
            reveal_strlit("0");
        }
        name.append("0");
        written = written + 1;
        assert(name@ =~= zeros((written - count) as nat));
    }
    name.append(digits.as_str());
    name.append(".");
    name.append(format);
    proof {
        reveal_strlit(".");
        assert(zeros(0) + decimal(frame as nat) =~= decimal(frame as nat));
        assert(name@ =~= file_name(frame, format@));
    }
    name
}

/// What is done with a rendered frame.
#[derive(Debug)]
pub enum Emit {
    /// The frame is kept until the run is over, and then all frames are
    /// written, in order, as one animated image.
    Collect,
    /// The frame is saved under this file name in the output directory.
    Save(String),
}

/// What an [`Emit`] holds, as text.
pub enum EmitText {
    Collect,
    Save(Seq<char>),
}

impl View for Emit {
    type V = EmitText;

    open spec fn view(&self) -> EmitText {
        match self {
            Emit::Collect => EmitText::Collect,
            Emit::Save(name) => EmitText::Save(name@),
        }
    }
}

/// Whether the frames of a run make one animated image, which is so for the
/// format `gif` and for no other.
pub fn is_animated(image_format: &str) -> (animated: bool)
    ensures
        animated == (image_format@ == "gif"@),
{
    same_text(image_format, "gif")
}

/// What is done with frame `frame` once it is rendered: for an animated
/// image it is collected, else it is saved in a file of its own.
pub fn emit_for(image_format: &str, frame: u32) -> (emit: Emit)
    ensures
        emit@ == if image_format@ == "gif"@ {
            EmitText::Collect
        } else {
            EmitText::Save(file_name(frame, image_format@))
        },
{
    if is_animated(image_format) {
        Emit::Collect
    } else {
        Emit::Save(frame_file_name(frame, image_format))
    }
}

} // verus!
