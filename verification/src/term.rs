//! Plain-value terminal types: the styled glyph a renderer produces, the
//! outcome of the frame wait, common frame-pacing options, and the color
//! argument validator.  Everything that actually touches the terminal
//! lives outside the library and consumes these values.

use vstd::prelude::*;

verus! {

/// How a glyph is styled when written: unstyled, or one of the eight
/// terminal colors in normal, dim or bold weight.
#[derive(Clone, Copy, Debug, PartialEq, Eq, Structural)]
pub enum TextStyle {
    Plain,
    Normal(u8),
    Dim(u8),
    Bold(u8),
}

/// One character cell of rendered output.
#[derive(Clone, Copy, Debug, PartialEq, Eq, Structural)]
pub struct Glyph {
    pub ch: char,
    pub style: TextStyle,
}

/// The outcome of one frame wait.
#[derive(Debug, PartialEq, Eq, Structural)]
pub enum WaitResult {
    Continue,
    Resize(usize, usize),
    Exit,
}

/// Frame-pacing options: step on keypresses only, or after a fixed delay
/// in milliseconds.
#[derive(Clone, Copy, Debug)]
pub struct CommonArgs {
    pub interactive: bool,
    pub wait: u64,
}

/// A terminal event, reduced to what the wait logic reads of it.
#[derive(Clone, Copy, Debug)]
pub enum TermEvent {
    /// A key was pressed; true when it was Esc or the letter q.
    KeyPress { exit_key: bool },
    /// A key event that is not a press (release or repeat).
    KeyOther,
    /// The terminal was resized to the given dimensions.
    Resized(usize, usize),
    /// Any other event.
    Other,
}

impl CommonArgs {
    /// What one observed event means for the frame loop: in interactive
    /// mode only an exit key ends the run and any other press steps one
    /// frame; otherwise any press ends the run.  Resizes always report
    /// the new size; remaining events are ignored.
    pub fn handle_event(&self, event: TermEvent) -> (r: Option<WaitResult>)
        ensures
            r == match event {
                TermEvent::KeyPress { exit_key } => if !self.interactive || exit_key {
                    Some(WaitResult::Exit)
                } else {
                    Some(WaitResult::Continue)
                },
                TermEvent::Resized(w, h) => Some(WaitResult::Resize(w, h)),
                TermEvent::KeyOther => None::<WaitResult>,
                TermEvent::Other => None::<WaitResult>,
            },
    {
        match event {
            TermEvent::KeyPress { exit_key } => {
                if !self.interactive || exit_key {
                    Some(WaitResult::Exit)
                } else {
                    Some(WaitResult::Continue)
                }
            },
            TermEvent::Resized(w, h) => Some(WaitResult::Resize(w, h)),
            TermEvent::KeyOther => None,
            TermEvent::Other => None,
        }
    }
}

/// The digit part of a numeral: everything after an optional plus sign.
pub open spec fn spec_digits(s: Seq<char>) -> Seq<char> {
    if s.len() > 0 && s[0] == '+' {
        s.subrange(1, s.len() as int)
    } else {
        s
    }
}

/// Whether `s` is the decimal numeral of a value at most 7, as the color
/// arguments require: an optional leading plus sign, then digits.
pub open spec fn spec_color_value(s: Seq<char>) -> Option<int> {
    if spec_digits(s).len() == 0 {
        None
    } else if exists|i: int|
        0 <= i < spec_digits(s).len() && !('0' <= #[trigger] spec_digits(s)[i] <= '9') {
        None
    } else if exists|i: int| 0 <= i < spec_digits(s).len() - 1 && #[trigger] spec_digits(s)[i]
        != '0' {
        // A nonzero digit before the last place means the value is at
        // least 10, past every color index.
        None
    } else {
        Some(spec_digits(s)[spec_digits(s).len() - 1] as int - '0' as int)
    }
}

/// Parses a color index: accepts exactly the numerals of 0 through 7.
pub fn validate_color(s: &str) -> (r: Result<usize, String>)
    ensures
        r matches Ok(n) ==> spec_color_value(s@) == Some(n as int) && n <= 7,
        r is Err ==> (forall|n: int| 0 <= n <= 7 ==> spec_color_value(s@) != Some(n)),
{
    let len = s.unicode_len();
    let mut start: usize = 0;
    if len > 0 && s.get_char(0) == '+' {
        start = 1;
    }
    if len == start {
        return Err(String::from_str("must be an integer between 0 and 7."));
    }
    let ghost digits = spec_digits(s@);
    let mut i: usize = start;
    while i < len
        invariant
            start <= i <= len,
            len == s@.len(),
            start == 0 || start == 1,
            start == 1 ==> s@.len() > 0 && s@[0] == '+',
            start == 0 ==> !(s@.len() > 0 && s@[0] == '+'),
            digits == s@.subrange(start as int, len as int),
            forall|j: int| start <= j < i ==> '0' <= #[trigger] s@[j] <= '9',
            forall|j: int| start <= j < i && j < len - 1 ==> #[trigger] s@[j] == '0',
        decreases len - i,
    {
        let c = s.get_char(i);
        if !('0' <= c && c <= '9') {
            proof {
                assert(0 <= i - start < digits.len());
                assert(digits[i - start] == s@[i as int]);
                assert(!('0' <= spec_digits(s@)[i - start] <= '9'));
                assert(spec_color_value(s@) is None);
            }
            return Err(String::from_str("must be an integer between 0 and 7."));
        }
        if i < len - 1 && c != '0' {
            proof {
                assert(0 <= i - start < digits.len() - 1);
                assert(digits[i - start] == s@[i as int]);
                assert(spec_digits(s@)[i - start] != '0');
                assert(0 <= i - start < spec_digits(s@).len() - 1);
                assert(spec_color_value(s@) is None);
            }
            return Err(String::from_str("must be an integer between 0 and 7."));
        }
        i = i + 1;
    }
    let last = s.get_char(len - 1);
    let value = last as usize - 48;
    proof {
        assert(forall|j: int|
            0 <= j < spec_digits(s@).len() ==> '0' <= #[trigger] spec_digits(s@)[j] <= '9') by {
            assert(forall|j: int|
                0 <= j < spec_digits(s@).len() ==> #[trigger] spec_digits(s@)[j] == s@[j + start]);
        }
        assert(forall|j: int|
            0 <= j < spec_digits(s@).len() - 1 ==> #[trigger] spec_digits(s@)[j] == '0') by {
            assert(forall|j: int|
                0 <= j < spec_digits(s@).len() ==> #[trigger] spec_digits(s@)[j] == s@[j + start]);
        }
        assert(spec_digits(s@)[spec_digits(s@).len() - 1] == s@[len - 1]);
    }
    if value <= 7 {
        Ok(value)
    } else {
        proof {
            assert(spec_color_value(s@) == Some(last as int - '0' as int));
        }
        Err(String::from_str("must be an integer between 0 and 7."))
    }
}

} // verus!
