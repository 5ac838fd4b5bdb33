//! Shared data model: window focus, tab identity, form field identity,
//! structured time input, directory entries and probed video bounds.
use vstd::prelude::*;
use crate::text::{
    dec_digits, dec_value, digit_char, digit_val, is_digit_char, is_digit_seq, parse_u64_digits,
    u64_to_dec,
};

verus! {

/// One directory entry of the file browser.
#[derive(Debug, Clone)]
pub struct FileEntry {
    pub name: String,
    pub path: String,
    pub is_dir: bool,
}

/// Which pane has keyboard focus.
#[derive(Debug, Clone, Copy, PartialEq, Eq, Structural)]
pub enum Focus {
    Left,
    RightTop,
    RightBottom,
}

impl Focus {
    /// The pane after `self` in the cycle left, right-top, right-bottom.
    pub open spec fn next_window_spec(self) -> Focus {
        match self {
            Focus::Left => Focus::RightTop,
            Focus::RightTop => Focus::RightBottom,
            Focus::RightBottom => Focus::Left,
        }
    }

    /// The pane before `self` in the cycle.
    pub open spec fn previous_window_spec(self) -> Focus {
        match self {
            Focus::Left => Focus::RightBottom,
            Focus::RightTop => Focus::Left,
            Focus::RightBottom => Focus::RightTop,
        }
    }

    /// Cycle focus forward through the panes.
    pub fn next_window(self) -> (r: Self)
        ensures
            r == self.next_window_spec(),
    {
        match self {
            Self::Left => Self::RightTop,
            Self::RightTop => Self::RightBottom,
            Self::RightBottom => Self::Left,
        }
    }

    /// Cycle focus backward through the panes.
    pub fn previous_window(self) -> (r: Self)
        ensures
            r == self.previous_window_spec(),
    {
        match self {
            Self::Left => Self::RightBottom,
            Self::RightTop => Self::Left,
            Self::RightBottom => Self::RightTop,
        }
    }
}

/// Whether keyboard input belongs to the top-right form pane.
pub fn is_top_form_focus(focus: Focus) -> (r: bool)
    ensures
        r == (focus == Focus::RightTop),
{
    focus == Focus::RightTop
}

/// Which tab the right side shows.
#[derive(Debug, Clone, Copy, PartialEq, Eq, Structural)]
pub enum RightTab {
    Trim,
    Hello,
}

impl RightTab {
    /// The tab shown after `self`.
    pub open spec fn next_spec(self) -> RightTab {
        match self {
            RightTab::Trim => RightTab::Hello,
            RightTab::Hello => RightTab::Trim,
        }
    }

    /// Switch to the next tab.
    pub fn next(self) -> (r: Self)
        ensures
            r == self.next_spec(),
    {
        match self {
            Self::Trim => Self::Hello,
            Self::Hello => Self::Trim,
        }
    }

    /// Switch to the previous tab.
    pub fn previous(self) -> (r: Self)
        ensures
            r == self.next_spec(),
    {
        match self {
            Self::Trim => Self::Hello,
            Self::Hello => Self::Trim,
        }
    }

    /// The 1-based number shown in the tab bar.
    pub fn number(self) -> (r: usize)
        ensures
            self is Trim ==> r == 1,
            self is Hello ==> r == 2,
    {
        match self {
            Self::Trim => 1,
            Self::Hello => 2,
        }
    }

    /// The label shown in the tab bar.
    pub fn label(self) -> (r: &'static str)
        ensures
            self is Trim ==> r@ == "Trim"@,
            self is Hello ==> r@ == "Hello"@,
    {
        match self {
            Self::Trim => "Trim",
            Self::Hello => "Hello",
        }
    }

    /// The tab with the given 1-based number, if any.
    pub fn from_number(number: usize) -> (r: Option<Self>)
        ensures
            number == 1 ==> r == Some(RightTab::Trim),
            number == 2 ==> r == Some(RightTab::Hello),
            number != 1 && number != 2 ==> r is None,
    {
        match number {
            1 => Some(Self::Trim),
            2 => Some(Self::Hello),
            _ => None,
        }
    }
}

/// Which form field is being edited.
#[derive(Debug, Clone, Copy, PartialEq, Eq, Structural)]
pub enum InputField {
    Start,
    End,
    Format,
    Fps,
    Bitrate,
    RemoveAudio,
    Output,
}

/// A two-character field holding exactly two ASCII digits.
pub open spec fn part_wf(s: Seq<char>) -> bool {
    s.len() == 2 && is_digit_char(s[0]) && is_digit_char(s[1])
}

/// The value of a two-digit field, between 0 and 99.
pub proof fn lemma_part_value_range(s: Seq<char>)
    requires
        part_wf(s),
    ensures
        0 <= dec_value(s) <= 99,
        dec_value(s) == digit_val(s[0]) * 10 + digit_val(s[1]),
        is_digit_seq(s),
{
    let head = s.drop_last();
    assert(head.len() == 1);
    assert(head.drop_last() =~= Seq::<char>::empty());
    assert(dec_value(Seq::<char>::empty()) == 0);
    assert(head.last() == s[0]);
    assert(dec_value(head) == dec_value(head.drop_last()) * 10 + digit_val(head.last()));
    assert(dec_value(head) == digit_val(s[0]));
    assert(s.last() == s[1]);
    assert(dec_value(s) == dec_value(head) * 10 + digit_val(s[1]));
    assert(0 <= digit_val(s[0]) <= 9);
    assert(0 <= digit_val(s[1]) <= 9);
}

/// The two-digit rendering of `n`, zero-padded.
pub open spec fn two_digit_spec(n: int) -> Seq<char> {
    if n < 10 {
        seq!['0', digit_char(n)]
    } else {
        dec_digits(n)
    }
}

/// For `n` up to 99 the two-digit rendering is well formed and denotes `n`.
pub proof fn lemma_two_digit_value(n: int)
    requires
        0 <= n <= 99,
    ensures
        part_wf(two_digit_spec(n)),
        dec_value(two_digit_spec(n)) == n,
{
    if n < 10 {
        let s = two_digit_spec(n);
        assert(s =~= seq!['0', digit_char(n)]);
        assert(part_wf(s));
        lemma_part_value_range(s);
        assert(digit_val(s[0]) == 0);
        assert(digit_val(s[1]) == n);
    } else {
        assert(n / 10 < 10);
        assert(dec_digits(n / 10) =~= seq![digit_char(n / 10)]);
        let s = two_digit_spec(n);
        assert(s =~= seq![digit_char(n / 10), digit_char(n % 10)]);
        assert(part_wf(s));
        lemma_part_value_range(s);
        assert(digit_val(s[0]) == n / 10);
        assert(digit_val(s[1]) == n % 10);
    }
}

/// The single-character string for an ASCII digit.
fn digit_char_str(c: char) -> (r: &'static str)
    requires
        is_digit_char(c),
    ensures
        r@ == seq![c],
{
    proof {
        reveal_strlit("0");
        reveal_strlit("1");
        reveal_strlit("2");
        reveal_strlit("3");
        reveal_strlit("4");
        reveal_strlit("5");
        reveal_strlit("6");
        reveal_strlit("7");
        reveal_strlit("8");
        reveal_strlit("9");
    }
    let r = match c {
        '0' => "0",
        '1' => "1",
        '2' => "2",
        '3' => "3",
        '4' => "4",
        '5' => "5",
        '6' => "6",
        '7' => "7",
        '8' => "8",
        '9' => "9",
        _ => {
            proof {
                assert(false);
            }
            "0"
        },
    };
    proof {
        assert(r@ =~= seq![c]);
    }
    r
}

/// Render a value up to 99 as a zero-padded two-digit field.
pub fn two_digit_string(n: u64) -> (r: String)
    requires
        n <= 99,
    ensures
        r@ == two_digit_spec(n as int),
        part_wf(r@),
{
    proof {
        lemma_two_digit_value(n as int);
    }
    if n < 10 {
        let mut s = String::from_str("0");
        proof {
            reveal_strlit("0");
        }
        s.append(digit_str_of(n));
        proof {
            assert(s@ =~= seq!['0', digit_char(n as int)]);
        }
        s
    } else {
        u64_to_dec(n)
    }
}

/// The one-digit string for a digit value.
fn digit_str_of(n: u64) -> (r: &'static str)
    requires
        n < 10,
    ensures
        r@ == seq![digit_char(n as int)],
{
    crate::text::digit_str(n)
}

/// A time offset entered as hours, minutes and seconds, each kept as a
/// two-digit field.
#[derive(Debug, Clone)]
pub struct TimeInput {
    hours: String,
    minutes: String,
    seconds: String,
}

impl TimeInput {
    /// The hours field's characters.
    pub closed spec fn hours_view(&self) -> Seq<char> {
        self.hours@
    }

    /// The minutes field's characters.
    pub closed spec fn minutes_view(&self) -> Seq<char> {
        self.minutes@
    }

    /// The seconds field's characters.
    pub closed spec fn seconds_view(&self) -> Seq<char> {
        self.seconds@
    }

    /// All three fields hold exactly two ASCII digits.
    pub open spec fn wf(&self) -> bool {
        part_wf(self.hours_view()) && part_wf(self.minutes_view()) && part_wf(self.seconds_view())
    }

    /// The total number of seconds the three fields denote.
    pub open spec fn seconds_value(&self) -> int {
        dec_value(self.hours_view()) * 3600 + dec_value(self.minutes_view()) * 60 + dec_value(
            self.seconds_view(),
        )
    }

    /// The zero time, `00:00:00`.
    pub fn zero() -> (r: Self)
        ensures
            r.wf(),
            r.hours_view() == "00"@,
            r.minutes_view() == "00"@,
            r.seconds_view() == "00"@,
            r.seconds_value() == 0,
    {
        proof {
            reveal_strlit("00");
        }
        let r = TimeInput {
            hours: String::from_str("00"),
            minutes: String::from_str("00"),
            seconds: String::from_str("00"),
        };
        proof {
            assert(r.hours_view() =~= seq!['0', '0']);
            lemma_part_value_range(r.hours_view());
            assert(digit_val('0') == 0);
        }
        r
    }

    /// The time for a whole number of seconds, capping hours at 99.
    pub fn from_seconds(total: u64) -> (r: Self)
        ensures
            r.wf(),
            r.hours_view() == two_digit_spec(
                if total / 3600 <= 99 {
                    (total / 3600) as int
                } else {
                    99
                },
            ),
            r.minutes_view() == two_digit_spec(((total % 3600) / 60) as int),
            r.seconds_view() == two_digit_spec((total % 60) as int),
    {
        let hours = if total / 3600 <= 99 {
            total / 3600
        } else {
            99
        };
        let minutes = (total % 3600) / 60;
        let secs = total % 60;
        TimeInput {
            hours: two_digit_string(hours),
            minutes: two_digit_string(minutes),
            seconds: two_digit_string(secs),
        }
    }

    /// The `HH:MM:SS` timestamp handed to the encoder.
    pub fn to_ffmpeg_timestamp(&self) -> (r: String)
        ensures
            r@ == self.hours_view() + ":"@ + self.minutes_view() + ":"@ + self.seconds_view(),
    {
        let mut s = self.hours.clone();
        s.append(":");
        s.append(self.minutes.as_str());
        s.append(":");
        s.append(self.seconds.as_str());
        s
    }

    /// The total seconds denoted by the three fields.
    pub fn to_seconds(&self) -> (r: u32)
        requires
            self.wf(),
        ensures
            r == self.seconds_value(),
    {
        proof {
            lemma_part_value_range(self.hours_view());
            lemma_part_value_range(self.minutes_view());
            lemma_part_value_range(self.seconds_view());
        }
        let hours = match parse_u64_digits(self.hours.as_str()) {
            Some(v) => v as u32,
            None => 0,
        };
        let minutes = match parse_u64_digits(self.minutes.as_str()) {
            Some(v) => v as u32,
            None => 0,
        };
        let seconds = match parse_u64_digits(self.seconds.as_str()) {
            Some(v) => v as u32,
            None => 0,
        };
        hours * 3600 + minutes * 60 + seconds
    }

    /// Whether the minutes and seconds fields are in the range 00 to 59.
    pub fn has_valid_minute_second_range(&self) -> (r: bool)
        requires
            self.wf(),
        ensures
            r == (dec_value(self.minutes_view()) < 60 && dec_value(self.seconds_view()) < 60),
    {
        proof {
            lemma_part_value_range(self.minutes_view());
            lemma_part_value_range(self.seconds_view());
        }
        let minutes = match parse_u64_digits(self.minutes.as_str()) {
            Some(v) => v as u32,
            None => 99,
        };
        let seconds = match parse_u64_digits(self.seconds.as_str()) {
            Some(v) => v as u32,
            None => 99,
        };
        minutes < 60 && seconds < 60
    }

    /// The field at the given index: hours, minutes, seconds, or `00` for
    /// an index out of range.
    pub fn part(&self, part_index: usize) -> (r: &str)
        ensures
            part_index == 0 ==> r@ == self.hours_view(),
            part_index == 1 ==> r@ == self.minutes_view(),
            part_index == 2 ==> r@ == self.seconds_view(),
            part_index > 2 ==> r@ == "00"@,
    {
        match part_index {
            0 => self.hours.as_str(),
            1 => self.minutes.as_str(),
            2 => self.seconds.as_str(),
            _ => "00",
        }
    }

    /// Shift a typed digit into the selected field: the old ones digit
    /// becomes the tens digit and the new digit the ones digit.  Ignores
    /// non-digit characters and out-of-range indexes.
    pub fn push_digit_to_part(&mut self, part_index: usize, digit: char)
        requires
            old(self).wf(),
        ensures
            final(self).wf(),
            !is_digit_char(digit) || part_index > 2 ==> *final(self) == *old(self),
            is_digit_char(digit) && part_index == 0 ==> final(self).hours_view() == seq![
                old(self).hours_view()[1],
                digit,
            ] && final(self).minutes_view() == old(self).minutes_view() && final(self).seconds_view() == old(self).seconds_view(),
            is_digit_char(digit) && part_index == 1 ==> final(self).minutes_view() == seq![
                old(self).minutes_view()[1],
                digit,
            ] && final(self).hours_view() == old(self).hours_view() && final(self).seconds_view()
                == old(self).seconds_view(),
            is_digit_char(digit) && part_index == 2 ==> final(self).seconds_view() == seq![
                old(self).seconds_view()[1],
                digit,
            ] && final(self).hours_view() == old(self).hours_view() && final(self).minutes_view()
                == old(self).minutes_view(),
    {
        if !crate::text::char_is_digit(digit) {
            return ;
        }
        if part_index > 2 {
            return ;
        }
        let ones = if part_index == 0 {
            self.hours.as_str().get_char(1)
        } else if part_index == 1 {
            self.minutes.as_str().get_char(1)
        } else {
            self.seconds.as_str().get_char(1)
        };
        let mut fresh = String::from_str(digit_char_str(ones));
        fresh.append(digit_char_str(digit));
        proof {
            assert(fresh@ =~= seq![ones, digit]);
        }
        if part_index == 0 {
            self.hours = fresh;
        } else if part_index == 1 {
            self.minutes = fresh;
        } else {
            self.seconds = fresh;
        }
    }

    /// Reset the selected field to `00`; out-of-range indexes are ignored.
    pub fn clear_part(&mut self, part_index: usize)
        requires
            old(self).wf(),
        ensures
            final(self).wf(),
            part_index > 2 ==> *final(self) == *old(self),
            part_index == 0 ==> final(self).hours_view() == "00"@ && final(self).minutes_view()
                == old(self).minutes_view() && final(self).seconds_view() == old(self).seconds_view(),
            part_index == 1 ==> final(self).minutes_view() == "00"@ && final(self).hours_view()
                == old(self).hours_view() && final(self).seconds_view() == old(self).seconds_view(),
            part_index == 2 ==> final(self).seconds_view() == "00"@ && final(self).hours_view()
                == old(self).hours_view() && final(self).minutes_view() == old(self).minutes_view(),
    {
        if part_index > 2 {
            return ;
        }
        proof {
            reveal_strlit("00");
        }
        let fresh = String::from_str("00");
        proof {
            assert(fresh@ =~= seq!['0', '0']);
        }
        if part_index == 0 {
            self.hours = fresh;
        } else if part_index == 1 {
            self.minutes = fresh;
        } else {
            self.seconds = fresh;
        }
    }
}

/// The probed time range of the selected video, in whole seconds.
#[derive(Debug, Clone, Copy)]
pub struct VideoBounds {
    pub start_seconds: u32,
    pub end_seconds: u32,
}

/// The UTF-8 byte length of one character.
pub open spec fn utf8_len_of(c: char) -> int {
    if (c as u32) < 0x80 {
        1
    } else if (c as u32) < 0x800 {
        2
    } else if (c as u32) < 0x10000 {
        3
    } else {
        4
    }
}

/// The UTF-8 byte length of a character sequence.
pub open spec fn utf8_len_seq(s: Seq<char>) -> int
    decreases s.len(),
{
    if s.len() == 0 {
        0
    } else {
        utf8_len_seq(s.drop_last()) + utf8_len_of(s.last())
    }
}

/// The byte index of the character at `char_index`, or the total byte
/// length when the index is past the end.
pub fn byte_index_for_char(input: &str, char_index: usize) -> (r: usize)
    requires
        4 * input@.len() <= usize::MAX,
    ensures
        char_index <= input@.len() ==> r == utf8_len_seq(input@.take(char_index as int)),
        char_index > input@.len() ==> r == utf8_len_seq(input@),
{
    let len = input.unicode_len();
    let stop = if char_index <= len {
        char_index
    } else {
        len
    };
    let mut acc: usize = 0;
    let mut i: usize = 0;
    proof {
        assert(input@.take(0) =~= Seq::<char>::empty());
    }
    while i < stop
        invariant
            i <= stop <= len,
            len == input@.len(),
            4 * len <= usize::MAX,
            acc <= 4 * i,
            acc == utf8_len_seq(input@.take(i as int)),
        decreases stop - i,
    {
        let c = input.get_char(i);
        let u = c as u32;
        let step: usize = if u < 0x80 {
            1
        } else if u < 0x800 {
            2
        } else if u < 0x10000 {
            3
        } else {
            4
        };
        proof {
            assert(input@.take(i + 1).drop_last() =~= input@.take(i as int));
            assert(input@.take(i + 1).last() == input@[i as int]);
        }
        acc = acc + step;
        i = i + 1;
    }
    proof {
        if char_index > len {
            assert(input@.take(len as int) =~= input@);
        }
    }
    acc
}

} // verus!
