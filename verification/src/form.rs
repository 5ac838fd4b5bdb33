//! Editor-form value parsing and small display helpers: frame rate,
//! bitrate and scale-percent validation, default form values, and text
//! truncation for fixed-width panes.
//!
//! Numeric form fields accept plain decimal text only (digits with at most
//! one dot); the form's own editing rules never produce anything else.
use vstd::prelude::*;
use crate::text::{
    dec_digits, dec_value, is_digit_char, is_digit_seq, char_is_digit, parse_u64_digits, trim_of,
    trim_spec,
};
use crate::stats::VideoStats;

verus! {

/// Dots in `s`.
pub open spec fn dot_count(s: Seq<char>) -> int
    decreases s.len(),
{
    if s.len() == 0 {
        0
    } else {
        dot_count(s.drop_last()) + if s.last() == '.' {
            1int
        } else {
            0int
        }
    }
}

/// A frame-rate text the form accepts: non-empty, digits with at most one
/// dot, at least one digit, and a value greater than zero (some digit is
/// not `0`).
pub open spec fn fps_text_valid(t: Seq<char>) -> bool {
    &&& t.len() > 0
    &&& forall|i: int| 0 <= i < t.len() ==> is_digit_char(#[trigger] t[i]) || t[i] == '.'
    &&& dot_count(t) <= 1
    &&& exists|i: int| 0 <= i < t.len() && is_digit_char(#[trigger] t[i])
    &&& exists|i: int| 0 <= i < t.len() && is_digit_char(#[trigger] t[i]) && t[i] != '0'
}

/// Validate the frame-rate field; returns the trimmed text unchanged.
pub fn parse_output_fps(value: &str) -> (r: Option<String>)
    ensures
        fps_text_valid(trim_spec(value@)) ==> (r matches Some(v) && v@ == trim_spec(value@)),
        !fps_text_valid(trim_spec(value@)) ==> r is None,
{
    let t = trim_of(value);
    let len = t.unicode_len();
    if len == 0 {
        return None;
    }
    let mut dots: usize = 0;
    let mut has_digit: bool = false;
    let mut has_nonzero: bool = false;
    let mut i: usize = 0;
    proof {
        assert(t@.take(0) =~= Seq::<char>::empty());
    }
    while i < len
        invariant
            i <= len,
            len == t@.len(),
            t@ == trim_spec(value@),
            dots <= i,
            dots == dot_count(t@.take(i as int)),
            forall|j: int| 0 <= j < i ==> is_digit_char(#[trigger] t@[j]) || t@[j] == '.',
            has_digit == exists|j: int| 0 <= j < i && is_digit_char(#[trigger] t@[j]),
            has_nonzero == exists|j: int|
                0 <= j < i && is_digit_char(#[trigger] t@[j]) && t@[j] != '0',
        decreases len - i,
    {
        let c = t.get_char(i);
        proof {
            assert(t@.take(i + 1).drop_last() =~= t@.take(i as int));
            assert(t@.take(i + 1).last() == t@[i as int]);
        }
        if char_is_digit(c) {
            has_digit = true;
            if c != '0' {
                has_nonzero = true;
            }
        } else if c == '.' {
            dots = dots + 1;
        } else {
            return None;
        }
        i = i + 1;
    }
    proof {
        assert(t@.take(len as int) =~= t@);
    }
    if dots <= 1 && has_digit && has_nonzero {
        Some(String::from_str(t))
    } else {
        None
    }
}

/// Validate the bitrate field: a whole number of kilobits per second
/// greater than zero.
pub fn parse_output_bitrate_kbps(value: &str) -> (r: Option<u32>)
    ensures
        (is_digit_seq(trim_spec(value@)) && 0 < dec_value(trim_spec(value@)) && dec_value(
            trim_spec(value@),
        ) <= u32::MAX) ==> (r matches Some(v) && v == dec_value(trim_spec(value@))),
        !(is_digit_seq(trim_spec(value@)) && 0 < dec_value(trim_spec(value@)) && dec_value(
            trim_spec(value@),
        ) <= u32::MAX) ==> r is None,
{
    let t = trim_of(value);
    match parse_u64_digits(t) {
        Some(v) => {
            if 0 < v && v <= u32::MAX as u64 {
                Some(v as u32)
            } else {
                proof {
                    crate::text::lemma_dec_value_nonneg(t@);
                }
                None
            }
        },
        None => None,
    }
}

/// Validate the scale field: empty means 100, otherwise a whole percent
/// between 1 and 100.
pub fn parse_output_scale_percent(value: &str) -> (r: Option<u32>)
    ensures
        trim_spec(value@).len() == 0 ==> r == Some(100u32),
        trim_spec(value@).len() > 0 && is_digit_seq(trim_spec(value@)) && 1 <= dec_value(
            trim_spec(value@),
        ) <= 100 ==> (r matches Some(v) && v == dec_value(trim_spec(value@))),
        trim_spec(value@).len() > 0 && !(is_digit_seq(trim_spec(value@)) && 1 <= dec_value(
            trim_spec(value@),
        ) <= 100) ==> r is None,
{
    let t = trim_of(value);
    if t.unicode_len() == 0 {
        return Some(100);
    }
    match parse_u64_digits(t) {
        Some(v) => {
            if 1 <= v && v <= 100 {
                Some(v as u32)
            } else {
                proof {
                    crate::text::lemma_dec_value_nonneg(t@);
                }
                None
            }
        },
        None => None,
    }
}

/// Validate the scale field for the preview line; the same rule as
/// [`parse_output_scale_percent`].
pub fn parse_scale_percent_for_preview(value: &str) -> (r: Option<u32>)
    ensures
        trim_spec(value@).len() == 0 ==> r == Some(100u32),
        trim_spec(value@).len() > 0 && is_digit_seq(trim_spec(value@)) && 1 <= dec_value(
            trim_spec(value@),
        ) <= 100 ==> (r matches Some(v) && v == dec_value(trim_spec(value@))),
        trim_spec(value@).len() > 0 && !(is_digit_seq(trim_spec(value@)) && 1 <= dec_value(
            trim_spec(value@),
        ) <= 100) ==> r is None,
{
    parse_output_scale_percent(value)
}

/// The frame rate proposed when a video is selected: its probed rate if
/// the form would accept it, else 30.
pub fn default_output_fps(stats: Option<&VideoStats>) -> (r: String)
    ensures
        (stats matches Some(s) && fps_text_valid(trim_spec(s.fps@))) ==> r@ == trim_spec(
            stats->Some_0.fps@,
        ),
        !(stats matches Some(s) && fps_text_valid(trim_spec(s.fps@))) ==> r@ == "30"@,
{
    match stats {
        Some(s) => {
            match parse_output_fps(s.fps.as_str()) {
                Some(f) => f,
                None => String::from_str("30"),
            }
        },
        None => String::from_str("30"),
    }
}

/// The bitrate proposed when a video is selected: its probed rate in
/// kilobits per second, else 8000.
pub fn default_output_bitrate_kbps(stats: Option<&VideoStats>) -> (r: String)
    ensures
        (stats matches Some(s) && s.bitrate_kbps matches Some(b)) ==> r@ == dec_digits(
            stats->Some_0.bitrate_kbps->Some_0 as int,
        ),
        !(stats matches Some(s) && s.bitrate_kbps is Some) ==> r@ == "8000"@,
{
    match stats {
        Some(s) => {
            match s.bitrate_kbps {
                Some(b) => crate::text::u64_to_dec(b as u64),
                None => String::from_str("8000"),
            }
        },
        None => String::from_str("8000"),
    }
}

/// The label of a toggled option.
pub fn on_off(value: bool) -> (r: &'static str)
    ensures
        value ==> r@ == "ON"@,
        !value ==> r@ == "OFF"@,
{
    if value {
        "ON"
    } else {
        "OFF"
    }
}

/// Text shortened for a fixed-width pane by dropping its head: the last
/// `max_chars - 1` characters behind an ellipsis.
pub open spec fn truncate_tail_spec(s: Seq<char>, max_chars: int) -> Seq<char> {
    if max_chars == 0 {
        Seq::empty()
    } else if s.len() <= max_chars {
        s
    } else if max_chars == 1 {
        "\u{2026}"@
    } else {
        "\u{2026}"@ + s.skip(s.len() - (max_chars - 1))
    }
}

/// Shorten text for a fixed-width pane, keeping its tail.
pub fn truncate_tail(value: &str, max_chars: usize) -> (r: String)
    ensures
        r@ == truncate_tail_spec(value@, max_chars as int),
{
    if max_chars == 0 {
        return String::new();
    }
    let len = value.unicode_len();
    if len <= max_chars {
        return String::from_str(value);
    }
    if max_chars == 1 {
        return String::from_str("\u{2026}");
    }
    let keep = max_chars - 1;
    let tail = value.substring_char(len - keep, len);
    proof {
        assert(tail@ =~= value@.skip(value@.len() - (max_chars - 1)));
    }
    let mut out = String::from_str("\u{2026}");
    out.append(tail);
    out
}

/// Text shortened for a fixed-width pane by dropping its middle: head and
/// tail around three dots, or only dots when no text fits.
pub open spec fn truncate_middle_spec(s: Seq<char>, max_chars: int) -> Seq<char> {
    if s.len() <= max_chars {
        s
    } else if max_chars <= 0 {
        Seq::empty()
    } else if max_chars == 1 {
        "."@
    } else if max_chars == 2 {
        ".."@
    } else if max_chars == 3 {
        "..."@
    } else {
        let keep = max_chars - 3;
        let left = keep / 2;
        let right = keep - left;
        s.take(left) + "..."@ + s.skip(s.len() - right)
    }
}

/// Shorten text for a fixed-width pane, keeping both ends.
pub fn truncate_middle(value: &str, max_chars: usize) -> (r: String)
    ensures
        r@ == truncate_middle_spec(value@, max_chars as int),
{
    let len = value.unicode_len();
    if len <= max_chars {
        return String::from_str(value);
    }
    if max_chars == 0 {
        return String::new();
    }
    if max_chars == 1 {
        return String::from_str(".");
    }
    if max_chars == 2 {
        return String::from_str("..");
    }
    if max_chars == 3 {
        return String::from_str("...");
    }
    let keep = max_chars - 3;
    let left = keep / 2;
    let right = keep - left;
    let head = value.substring_char(0, left);
    let tail = value.substring_char(len - right, len);
    proof {
        assert(head@ =~= value@.take((max_chars - 3) / 2));
        assert(tail@ =~= value@.skip(value@.len() - ((max_chars - 3) - (max_chars - 3) / 2)));
    }
    let mut out = String::from_str(head);
    out.append("...");
    out.append(tail);
    out
}

/// The glyph of one spinner frame.
pub open spec fn spinner_glyph_spec(frame: int) -> char {
    if frame % 4 == 0 {
        '|'
    } else if frame % 4 == 1 {
        '/'
    } else if frame % 4 == 2 {
        '-'
    } else {
        '\\'
    }
}

/// The spinner glyph shown for a frame counter.
pub fn spinner_glyph(frame: usize) -> (r: char)
    ensures
        r == spinner_glyph_spec(frame as int),
{
    let m = frame % 4;
    if m == 0 {
        '|'
    } else if m == 1 {
        '/'
    } else if m == 2 {
        '-'
    } else {
        '\\'
    }
}

} // verus!
