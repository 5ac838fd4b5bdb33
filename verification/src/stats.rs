//! Parsing and display of probed media statistics: the `key=value` lines a
//! probe prints, exact decimal parsing of seconds and frame-rate fractions,
//! and fixed-point rendering of byte counts and bit rates.
//!
//! All arithmetic is exact over integers; fractional values are carried as
//! scaled integers (microseconds, hundredths) instead of floating point.
use vstd::prelude::*;
use crate::text::{
    dec_digits, dec_value, is_digit_char, is_digit_seq, char_is_digit, lines_of,
    parse_u64_digits, split_lines, str_eq, trim_of, trim_spec,
};
use crate::model::{TimeInput, VideoBounds};

verus! {

/// Probed display statistics of the selected video.
#[derive(Debug, Clone)]
pub struct VideoStats {
    pub duration: String,
    pub resolution: String,
    pub width: Option<u32>,
    pub height: Option<u32>,
    pub fps: String,
    pub video_codec: String,
    pub audio_codec: String,
    pub size: String,
    pub bitrate: String,
    pub bitrate_kbps: Option<u32>,
}

/// Index of the first `=` in a line, or `-1`.
pub open spec fn first_eq_of(s: Seq<char>) -> int
    decreases s.len(),
{
    if s.len() == 0 {
        -1
    } else if s[0] == '=' {
        0
    } else if first_eq_of(s.skip(1)) == -1 {
        -1
    } else {
        1 + first_eq_of(s.skip(1))
    }
}

proof fn lemma_first_eq_range(s: Seq<char>)
    ensures
        first_eq_of(s) == -1 || (0 <= first_eq_of(s) < s.len()),
    decreases s.len(),
{
    if s.len() > 0 && s[0] != '=' {
        lemma_first_eq_range(s.skip(1));
    }
}

/// The key/value pair a probe line contributes: split at the first `=`.
pub open spec fn kv_of(t: Seq<char>) -> Option<(Seq<char>, Seq<char>)> {
    let e = first_eq_of(t);
    if e == -1 {
        None
    } else {
        Some((t.take(e), t.skip(e + 1)))
    }
}

/// The key/value pairs of a probe transcript, in line order: each line is
/// trimmed, empty lines are dropped, and lines without `=` are dropped.
pub open spec fn kv_pairs_fold(done: Seq<(Seq<char>, Seq<char>)>, lines: Seq<Seq<char>>) -> Seq<
    (Seq<char>, Seq<char>),
>
    decreases lines.len(),
{
    if lines.len() == 0 {
        done
    } else {
        let t = trim_spec(lines[0]);
        let next = if t.len() == 0 {
            done
        } else {
            match kv_of(t) {
                Some(kv) => done.push(kv),
                None => done,
            }
        };
        kv_pairs_fold(next, lines.skip(1))
    }
}

/// All key/value pairs of a probe transcript.
pub open spec fn kv_pairs_of(s: Seq<char>) -> Seq<(Seq<char>, Seq<char>)> {
    kv_pairs_fold(Seq::empty(), lines_of(s))
}

/// First-`=` scan matching [`first_eq_of`].
fn find_first_eq(s: &str) -> (r: Option<usize>)
    ensures
        r matches Some(x) ==> first_eq_of(s@) == x && x < s@.len(),
        r is None ==> first_eq_of(s@) == -1,
{
    let len = s.unicode_len();
    let mut i: usize = 0;
    proof {
        assert(s@.skip(0) =~= s@);
    }
    loop
        invariant
            i <= len,
            len == s@.len(),
            first_eq_of(s@) == if first_eq_of(s@.skip(i as int)) == -1 {
                -1
            } else {
                i + first_eq_of(s@.skip(i as int))
            },
        ensures
            i <= len,
            len == s@.len(),
            (i < len && first_eq_of(s@) == i) || (i == len && first_eq_of(s@) == -1),
        decreases len - i,
    {
        if i == len {
            proof {
                assert(s@.skip(i as int) =~= Seq::<char>::empty());
            }
            break ;
        }
        let c = s.get_char(i);
        proof {
            assert(s@.skip(i as int)[0] == s@[i as int]);
            assert(s@.skip(i as int).skip(1) =~= s@.skip(i + 1));
            lemma_first_eq_range(s@.skip(i + 1));
        }
        if c == '=' {
            break ;
        }
        i = i + 1;
    }
    if i < len {
        Some(i)
    } else {
        None
    }
}

/// The pairs view of a collected pair list.
pub open spec fn pairs_views(v: Seq<(String, String)>) -> Seq<(Seq<char>, Seq<char>)> {
    Seq::new(v.len(), |i: int| (v[i].0@, v[i].1@))
}

/// Split a probe transcript into its `key=value` pairs, in line order.
pub fn parse_key_value_lines(input: &str) -> (r: Vec<(String, String)>)
    ensures
        pairs_views(r@) == kv_pairs_of(input@),
{
    let lines = split_lines(input);
    let ghost lv = lines.deep_view();
    let mut out: Vec<(String, String)> = Vec::new();
    proof {
        assert(pairs_views(out@) =~= Seq::<(Seq<char>, Seq<char>)>::empty());
        assert(lv.skip(0) =~= lv);
    }
    let mut i: usize = 0;
    while i < lines.len()
        invariant
            i <= lines@.len(),
            lines.deep_view() == lv,
            lv == lines_of(input@),
            kv_pairs_of(input@) == kv_pairs_fold(pairs_views(out@), lv.skip(i as int)),
        decreases lines@.len() - i,
    {
        proof {
            assert(lv.skip(i as int)[0] == lv[i as int]);
            assert(lv[i as int] == lines@[i as int]@);
            assert(lv.skip(i as int).skip(1) =~= lv.skip(i + 1));
        }
        let ghost done0 = pairs_views(out@);
        let t = trim_of(lines[i].as_str());
        if t.unicode_len() > 0 {
            match find_first_eq(t) {
                Some(e) => {
                    let key = t.substring_char(0, e);
                    let value = t.substring_char(e + 1, t.unicode_len());
                    proof {
                        assert(key@ =~= trim_spec(lv[i as int]).take(
                            first_eq_of(trim_spec(lv[i as int])),
                        ));
                        assert(value@ =~= trim_spec(lv[i as int]).skip(
                            first_eq_of(trim_spec(lv[i as int])) + 1,
                        ));
                    }
                    out.push((String::from_str(key), String::from_str(value)));
                    proof {
                        assert(pairs_views(out@) =~= done0.push((key@, value@))) by {
                            assert(forall|j: int|
                                0 <= j < out@.len() ==> #[trigger] pairs_views(out@)[j] == (
                                out@[j].0@,
                                out@[j].1@,
                                ));
                            assert(forall|j: int|
                                0 <= j < done0.len() ==> #[trigger] done0[j] == (
                                out@[j].0@,
                                out@[j].1@,
                                ));
                        }
                    }
                },
                None => {},
            }
        }
        i = i + 1;
    }
    proof {
        assert(lv.skip(lv.len() as int) =~= Seq::<Seq<char>>::empty());
    }
    out
}

/// The value of the last pair carrying `key`, as a map lookup would see it.
pub open spec fn lookup_spec(pairs: Seq<(Seq<char>, Seq<char>)>, key: Seq<char>) -> Option<
    Seq<char>,
>
    decreases pairs.len(),
{
    if pairs.len() == 0 {
        None
    } else if pairs.last().0 == key {
        Some(pairs.last().1)
    } else {
        lookup_spec(pairs.drop_last(), key)
    }
}

/// Look a key up among the parsed pairs; the last occurrence wins.
pub fn lookup_value(pairs: &Vec<(String, String)>, key: &str) -> (r: Option<String>)
    ensures
        lookup_spec(pairs_views(pairs@), key@) matches Some(v) ==> (r matches Some(s) && s@ == v),
        lookup_spec(pairs_views(pairs@), key@) is None ==> r is None,
{
    let ghost pv = pairs_views(pairs@);
    let mut i: usize = pairs.len();
    proof {
        assert(pv.take(i as int) =~= pv);
    }
    loop
        invariant
            i <= pairs@.len(),
            pv == pairs_views(pairs@),
            pv.len() == pairs@.len(),
            lookup_spec(pv, key@) == lookup_spec(pv.take(i as int), key@),
        ensures
            lookup_spec(pv, key@) is None,
            pv == pairs_views(pairs@),
        decreases i,
    {
        if i == 0 {
            proof {
                assert(pv.take(0) =~= Seq::<(Seq<char>, Seq<char>)>::empty());
            }
            break ;
        }
        proof {
            let cur = pv.take(i as int);
            assert(cur.last() == pv[i - 1]);
            assert(pv[i - 1] == (pairs@[i - 1].0@, pairs@[i - 1].1@));
            assert(cur.drop_last() =~= pv.take(i - 1));
        }
        if str_eq(pairs[i - 1].0.as_str(), key) {
            return Some(pairs[i - 1].1.clone());
        }
        i = i - 1;
    }
    None
}

/// The whole-number part and two rounded decimals of `value / unit`:
/// `round(value * 100 / unit)` split into hundreds.
pub open spec fn two_decimals_spec(value: int, unit: int) -> (int, int) {
    let hundredths = (value * 100 * 2 + unit) / (2 * unit);
    (hundredths / 100, hundredths % 100)
}

/// `n` rendered with two zero-padded decimal digits after the point.
pub open spec fn fixed2_digits(whole: int, frac: int) -> Seq<char> {
    dec_digits(whole) + "."@ + crate::model::two_digit_spec(frac)
}

/// Render `whole.frac` with two decimals.
fn fixed2_string(whole: u64, frac: u64) -> (r: String)
    requires
        frac <= 99,
    ensures
        r@ == fixed2_digits(whole as int, frac as int),
{
    let mut s = u64_to_dec_local(whole);
    s.append(".");
    let f = crate::model::two_digit_string(frac);
    s.append(f.as_str());
    s
}

/// Decimal rendering shared with the text module.
fn u64_to_dec_local(n: u64) -> (r: String)
    ensures
        r@ == dec_digits(n as int),
{
    crate::text::u64_to_dec(n)
}

/// A byte count rendered for display: two decimals of the matching power
/// of 1024, or the bare count under one KiB.
pub open spec fn format_bytes_spec(bytes: int) -> Seq<char> {
    if bytes >= 0x40000000 {
        let d = two_decimals_spec(bytes, 0x40000000);
        fixed2_digits(d.0, d.1) + " GB"@
    } else if bytes >= 0x100000 {
        let d = two_decimals_spec(bytes, 0x100000);
        fixed2_digits(d.0, d.1) + " MB"@
    } else if bytes >= 0x400 {
        let d = two_decimals_spec(bytes, 0x400);
        fixed2_digits(d.0, d.1) + " KB"@
    } else {
        dec_digits(bytes) + " B"@
    }
}

/// Split a scaled division into whole and fractional display parts.
fn two_decimals(value: u64, unit: u64) -> (r: (u64, u64))
    requires
        1 <= unit,
        value <= 0xFFFF_FFFF_FFFF_FFFF,
    ensures
        r.0 == two_decimals_spec(value as int, unit as int).0,
        r.1 == two_decimals_spec(value as int, unit as int).1,
        r.1 <= 99,
{
    let hundredths: u128 = ((value as u128) * 100 * 2 + unit as u128) / (2 * unit as u128);
    proof {
        assert((value as int) * 100 * 2 + unit <= 0xFFFF_FFFF_FFFF_FFFF * 200int
            + 0xFFFF_FFFF_FFFF_FFFF);
        assert(hundredths == (value as int * 100 * 2 + unit) / (2 * unit as int));
        assert(hundredths % 100 <= 99);
        assert(hundredths / 100 <= 0xFFFF_FFFF_FFFF_FFFFu128) by {
            assert((value as int * 100 * 2 + unit) / (2 * unit as int) <= value as int * 100 + 1)
                by (nonlinear_arith)
                requires
                    1 <= unit,
                    0 <= value,
            ;
        }
    }
    ((hundredths / 100) as u64, (hundredths % 100) as u64)
}

/// Render a probed file size for display.
pub fn format_bytes(bytes: u64) -> (r: String)
    ensures
        r@ == format_bytes_spec(bytes as int),
{
    if bytes >= 0x40000000 {
        let d = two_decimals(bytes, 0x40000000);
        let mut s = fixed2_string(d.0, d.1);
        s.append(" GB");
        s
    } else if bytes >= 0x100000 {
        let d = two_decimals(bytes, 0x100000);
        let mut s = fixed2_string(d.0, d.1);
        s.append(" MB");
        s
    } else if bytes >= 0x400 {
        let d = two_decimals(bytes, 0x400);
        let mut s = fixed2_string(d.0, d.1);
        s.append(" KB");
        s
    } else {
        let mut s = u64_to_dec_local(bytes);
        s.append(" B");
        s
    }
}

/// A bit rate rendered for display: two decimals of Mbps or Kbps, or the
/// bare bits per second.
pub open spec fn format_bitrate_spec(bps: int) -> Seq<char> {
    if bps >= 1000000 {
        let d = two_decimals_spec(bps, 1000000);
        fixed2_digits(d.0, d.1) + " Mbps"@
    } else if bps >= 1000 {
        let d = two_decimals_spec(bps, 1000);
        fixed2_digits(d.0, d.1) + " Kbps"@
    } else {
        dec_digits(bps) + " bps"@
    }
}

/// Render a probed bit rate for display.
pub fn format_bitrate(bits_per_second: u64) -> (r: String)
    ensures
        r@ == format_bitrate_spec(bits_per_second as int),
{
    if bits_per_second >= 1000000 {
        let d = two_decimals(bits_per_second, 1000000);
        let mut s = fixed2_string(d.0, d.1);
        s.append(" Mbps");
        s
    } else if bits_per_second >= 1000 {
        let d = two_decimals(bits_per_second, 1000);
        let mut s = fixed2_string(d.0, d.1);
        s.append(" Kbps");
        s
    } else {
        let mut s = u64_to_dec_local(bits_per_second);
        s.append(" bps");
        s
    }
}

/// The first line of a transcript that still holds text after trimming.
pub open spec fn first_nonempty_spec(lines: Seq<Seq<char>>) -> Option<Seq<char>>
    decreases lines.len(),
{
    if lines.len() == 0 {
        None
    } else if trim_spec(lines[0]).len() > 0 {
        Some(trim_spec(lines[0]))
    } else {
        first_nonempty_spec(lines.skip(1))
    }
}

/// Find the first non-empty trimmed line of a probe's output.
pub fn first_nonempty_line(s: &str) -> (r: Option<String>)
    ensures
        first_nonempty_spec(lines_of(s@)) matches Some(v) ==> (r matches Some(l) && l@ == v),
        first_nonempty_spec(lines_of(s@)) is None ==> r is None,
{
    let lines = split_lines(s);
    let ghost lv = lines.deep_view();
    let mut i: usize = 0;
    proof {
        assert(lv.skip(0) =~= lv);
    }
    while i < lines.len()
        invariant
            i <= lines@.len(),
            lines.deep_view() == lv,
            lv == lines_of(s@),
            first_nonempty_spec(lv) == first_nonempty_spec(lv.skip(i as int)),
        decreases lines@.len() - i,
    {
        proof {
            assert(lv.skip(i as int)[0] == lv[i as int]);
            assert(lv[i as int] == lines@[i as int]@);
            assert(lv.skip(i as int).skip(1) =~= lv.skip(i + 1));
        }
        let t = trim_of(lines[i].as_str());
        if t.unicode_len() > 0 {
            return Some(String::from_str(t));
        }
        i = i + 1;
    }
    proof {
        assert(lv.skip(lv.len() as int) =~= Seq::<Seq<char>>::empty());
    }
    None
}

/// The last line of a transcript that still holds text after trimming.
pub open spec fn last_nonempty_spec(lines: Seq<Seq<char>>) -> Option<Seq<char>>
    decreases lines.len(),
{
    if lines.len() == 0 {
        None
    } else if trim_spec(lines.last()).len() > 0 {
        Some(trim_spec(lines.last()))
    } else {
        last_nonempty_spec(lines.drop_last())
    }
}

/// Find the last non-empty trimmed line of a transcript, as the failure
/// summary of the downloader does.
pub fn last_nonempty_line(s: &str) -> (r: Option<String>)
    ensures
        last_nonempty_spec(lines_of(s@)) matches Some(v) ==> (r matches Some(l) && l@ == v),
        last_nonempty_spec(lines_of(s@)) is None ==> r is None,
{
    let lines = split_lines(s);
    let ghost lv = lines.deep_view();
    let mut i: usize = lines.len();
    proof {
        assert(lv.take(i as int) =~= lv);
    }
    loop
        invariant
            i <= lines@.len(),
            lines.deep_view() == lv,
            lv == lines_of(s@),
            last_nonempty_spec(lv) == last_nonempty_spec(lv.take(i as int)),
        ensures
            last_nonempty_spec(lv) is None,
            lv == lines_of(s@),
        decreases i,
    {
        if i == 0 {
            proof {
                assert(lv.take(0) =~= Seq::<Seq<char>>::empty());
            }
            break ;
        }
        proof {
            let cur = lv.take(i as int);
            assert(cur.last() == lv[i - 1]);
            assert(lv[i - 1] == lines@[i - 1]@);
            assert(cur.drop_last() =~= lv.take(i - 1));
        }
        let t = trim_of(lines[i - 1].as_str());
        if t.unicode_len() > 0 {
            return Some(String::from_str(t));
        }
        i = i - 1;
    }
    None
}

/// The probed seconds a decimal text denotes, in whole microseconds:
/// digits with an optional fraction, of which the first six digits count.
/// Values whose whole microseconds do not fit in a `u64`, and texts that
/// are not plain decimal numbers, give `None`.
pub open spec fn micros_spec(t: Seq<char>) -> Option<int> {
    let d = crate::quality::first_dot_of(t);
    if t.len() == 0 {
        None
    } else if d == -1 {
        if is_digit_seq(t) && dec_value(t) * 1000000 <= u64::MAX {
            Some(dec_value(t) * 1000000)
        } else {
            None
        }
    } else {
        let ipart = t.take(d);
        let frac = t.skip(d + 1);
        let frac6 = if frac.len() <= 6 {
            frac
        } else {
            frac.take(6)
        };
        if t.len() > 1 && (ipart.len() == 0 || is_digit_seq(ipart)) && (frac.len() == 0
            || is_digit_seq(frac)) && dec_value(ipart) * 1000000 + dec_value(frac6) * crate::quality::pow10(
            6 - frac6.len() as int,
        ) <= u64::MAX {
            Some(
                dec_value(ipart) * 1000000 + dec_value(frac6) * crate::quality::pow10(
                    6 - frac6.len() as int,
                ),
            )
        } else {
            None
        }
    }
}

/// Whole seconds, rounded to nearest, from microseconds.
pub open spec fn micros_to_seconds(us: int) -> int {
    (us + 500000) / 1000000
}

/// Parse a probed decimal seconds value into whole microseconds.
pub fn parse_probe_micros(value: &str) -> (r: Option<u64>)
    ensures
        micros_spec(trim_spec(value@)) matches Some(v) ==> (r matches Some(us) && us == v),
        micros_spec(trim_spec(value@)) is None ==> r is None,
{
    let t = trim_of(value);
    let len = t.unicode_len();
    if len == 0 {
        return None;
    }
    match crate::quality::find_first_dot(t) {
        None => {
            match parse_u64_digits(t) {
                Some(v) => {
                    if v <= u64::MAX / 1000000 {
                        Some(v * 1000000)
                    } else {
                        proof {
                            crate::text::lemma_dec_value_nonneg(t@);
                            assert(dec_value(t@) * 1000000 > u64::MAX) by (nonlinear_arith)
                                requires
                                    dec_value(t@) > 18446744073709int,
                            ;
                        }
                        None
                    }
                },
                None => {
                    proof {
                        if is_digit_seq(t@) {
                            crate::text::lemma_dec_value_nonneg(t@);
                        }
                    }
                    None
                },
            }
        },
        Some(d) => {
            if len <= 1 {
                return None;
            }
            let ipart = t.substring_char(0, d);
            let frac = t.substring_char(d + 1, len);
            proof {
                assert(ipart@ =~= t@.take(d as int));
                assert(frac@ =~= t@.skip(d + 1));
            }
            let iv: u64 = if d == 0 {
                proof {
                    assert(ipart@.len() == 0);
                }
                0
            } else {
                match parse_u64_digits(ipart) {
                    Some(v) => v,
                    None => {
                        proof {
                            if is_digit_seq(ipart@) {
                                crate::text::lemma_dec_value_nonneg(ipart@);
                                let fr = t@.skip(d + 1);
                                let fr6 = if fr.len() <= 6 {
                                    fr
                                } else {
                                    fr.take(6)
                                };
                                if fr.len() == 0 || is_digit_seq(fr) {
                                    assert(forall|j: int|
                                        0 <= j < fr6.len() ==> fr6[j] == fr[j] && is_digit_char(
                                            fr[j],
                                        ));
                                    crate::text::lemma_dec_value_nonneg(fr6);
                                    crate::quality::lemma_pow10_le(
                                        6 - fr6.len() as int,
                                        6 - fr6.len() as int,
                                    );
                                    assert(dec_value(fr6) * crate::quality::pow10(
                                        6 - fr6.len() as int,
                                    ) >= 0) by (nonlinear_arith)
                                        requires
                                            dec_value(fr6) >= 0,
                                            crate::quality::pow10(6 - fr6.len() as int) >= 1,
                                    ;
                                }
                            }
                        }
                        return None;
                    },
                }
            };
            let flen = frac.unicode_len();
            let frac6 = if flen <= 6 {
                frac
            } else {
                frac.substring_char(0, 6)
            };
            proof {
                if flen <= 6 {
                    assert(frac6@ =~= frac@);
                } else {
                    assert(frac6@ =~= frac@.take(6));
                }
            }
            let fv: u64 = if frac6.unicode_len() == 0 {
                proof {
                    assert(frac6@.len() == 0);
                }
                0
            } else {
                match parse_u64_digits(frac6) {
                    Some(v) => v,
                    None => {
                        proof {
                            if is_digit_seq(frac6@) {
                                crate::quality::lemma_dec_value_bound(frac6@);
                                crate::quality::lemma_pow10_le(frac6@.len() as int, 6);
                                assert(crate::quality::pow10(0) == 1);
                                assert(crate::quality::pow10(1) == 10);
                                assert(crate::quality::pow10(2) == 100);
                                assert(crate::quality::pow10(3) == 1000);
                                assert(crate::quality::pow10(4) == 10000);
                                assert(crate::quality::pow10(5) == 100000);
                                assert(crate::quality::pow10(6) == 1000000);
                                assert(false);
                            } else {
                                let k = choose|k: int|
                                    0 <= k < frac6@.len() && !is_digit_char(frac6@[k]);
                                assert(frac@[k] == frac6@[k]);
                                assert(!is_digit_seq(frac@));
                                if is_digit_seq(ipart@) {
                                    crate::text::lemma_dec_value_nonneg(ipart@);
                                }
                            }
                        }
                        return None;
                    },
                }
            };
            // Digits of the fraction must all be checked, not only the six
            // that count.
            if flen > 6 {
                let mut j: usize = 6;
                while j < flen
                    invariant
                        6 <= j <= flen,
                        flen == frac@.len(),
                        t@ == trim_spec(value@),
                        t@.len() > 1,
                        crate::quality::first_dot_of(t@) == d,
                        d < t@.len(),
                        frac@ == t@.skip(d + 1),
                        forall|k: int| 6 <= k < j ==> is_digit_char(#[trigger] frac@[k]),
                    decreases flen - j,
                {
                    if !char_is_digit(frac.get_char(j)) {
                        proof {
                            assert(!is_digit_seq(frac@));
                        }
                        return None;
                    }
                    j = j + 1;
                }
            }
            proof {
                if frac6@.len() > 0 {
                    assert(is_digit_seq(frac6@));
                }
                if flen > 6 {
                    assert(is_digit_seq(frac@)) by {
                        assert(forall|k: int|
                            0 <= k < 6 ==> frac@[k] == frac6@[k] && is_digit_char(frac6@[k]));
                    }
                }
            }
            let f6len = frac6.unicode_len();
            proof {
                assert(f6len <= 6);
            }
            let p: u128 = crate::quality::pow10_exec(6 - f6len);
            proof {
                assert((iv as int) * 1000000 + (fv as int) * (p as int) <= 0xFFFF_FFFF_FFFF_FFFF
                    * 1000000int + 0xFFFF_FFFF_FFFF_FFFF * 1000000int) by (nonlinear_arith)
                    requires
                        iv <= 0xFFFF_FFFF_FFFF_FFFFu64,
                        fv <= 0xFFFF_FFFF_FFFF_FFFFu64,
                        1 <= p <= 1000000u128,
                ;
                assert((iv as int) * 1000000 >= 0 && (fv as int) * (p as int) >= 0)
                    by (nonlinear_arith)
                    requires
                        iv >= 0,
                        fv >= 0,
                        p >= 1,
                ;
            }
            let total: u128 = (iv as u128) * 1000000 + (fv as u128) * p;
            if total > u64::MAX as u128 {
                None
            } else {
                Some(total as u64)
            }
        },
    }
}

/// The hundredths of a frame-rate fraction `num/den`, rounded to nearest:
/// `round(100 * num / den)`.  `None` when either side is not a plain
/// number, the denominator is zero, or the values overflow the exact
/// arithmetic.
pub open spec fn fraction_hundredths_spec(num: Seq<char>, den: Seq<char>) -> Option<int> {
    if is_digit_seq(num) && is_digit_seq(den) && dec_value(num) <= u64::MAX && dec_value(den)
        <= u64::MAX && dec_value(den) > 0 && (dec_value(num) * 100 * 2 + dec_value(den)) / (2
        * dec_value(den)) <= u64::MAX {
        Some((dec_value(num) * 100 * 2 + dec_value(den)) / (2 * dec_value(den)))
    } else {
        None
    }
}

/// Parse an `avg_frame_rate` fraction into rounded hundredths.
pub fn parse_fraction_hundredths(num: &str, den: &str) -> (r: Option<u64>)
    ensures
        fraction_hundredths_spec(num@, den@) matches Some(v) ==> (r matches Some(h) && h == v),
        fraction_hundredths_spec(num@, den@) is None ==> r is None,
{
    let Some(n) = parse_u64_digits(num) else {
        return None;
    };
    let Some(d) = parse_u64_digits(den) else {
        proof {
            crate::text::lemma_dec_value_nonneg(num@);
        }
        return None;
    };
    if d == 0 {
        return None;
    }
    let h: u128 = ((n as u128) * 100 * 2 + d as u128) / (2 * (d as u128));
    proof {
        assert(h == ((n as int) * 100 * 2 + d) / (2 * (d as int)));
        assert(((n as int) * 100 * 2 + d) / (2 * (d as int)) <= (n as int) * 100 + 1)
            by (nonlinear_arith)
            requires
                1 <= d,
                0 <= n,
        ;
        assert((n as int) * 100 + 1 <= 0xFFFF_FFFF_FFFF_FFFF * 100int + 1);
        assert(((n as int) * 100 * 2 + d) >= 0) by (nonlinear_arith)
            requires
                0 <= n,
                0 <= d,
        ;
        assert(h <= 0xFFFF_FFFF_FFFF_FFFF * 100 + 1);
    }
    if h > u64::MAX as u128 {
        None
    } else {
        Some(h as u64)
    }
}

/// The trimmed non-empty lines of a transcript, in order.
pub open spec fn nonempty_lines_fold(done: Seq<Seq<char>>, lines: Seq<Seq<char>>) -> Seq<Seq<char>>
    decreases lines.len(),
{
    if lines.len() == 0 {
        done
    } else {
        let t = trim_spec(lines[0]);
        nonempty_lines_fold(
            if t.len() > 0 {
                done.push(t)
            } else {
                done
            },
            lines.skip(1),
        )
    }
}

/// All trimmed non-empty lines of a transcript.
pub open spec fn nonempty_lines_of(s: Seq<char>) -> Seq<Seq<char>> {
    nonempty_lines_fold(Seq::empty(), lines_of(s))
}

/// Collect the trimmed non-empty lines of a transcript.
pub fn nonempty_lines(s: &str) -> (r: Vec<String>)
    ensures
        r.deep_view() == nonempty_lines_of(s@),
{
    let lines = split_lines(s);
    let ghost lv = lines.deep_view();
    let mut out: Vec<String> = Vec::new();
    proof {
        assert(out.deep_view() =~= Seq::<Seq<char>>::empty());
        assert(lv.skip(0) =~= lv);
    }
    let mut i: usize = 0;
    while i < lines.len()
        invariant
            i <= lines@.len(),
            lines.deep_view() == lv,
            lv == lines_of(s@),
            nonempty_lines_of(s@) == nonempty_lines_fold(out.deep_view(), lv.skip(i as int)),
        decreases lines@.len() - i,
    {
        proof {
            assert(lv.skip(i as int)[0] == lv[i as int]);
            assert(lv[i as int] == lines@[i as int]@);
            assert(lv.skip(i as int).skip(1) =~= lv.skip(i + 1));
        }
        let ghost done0 = out.deep_view();
        let t = trim_of(lines[i].as_str());
        if t.unicode_len() > 0 {
            out.push(String::from_str(t));
            proof {
                assert(out.deep_view() =~= done0.push(trim_spec(lv[i as int])));
            }
        }
        i = i + 1;
    }
    proof {
        assert(lv.skip(lv.len() as int) =~= Seq::<Seq<char>>::empty());
    }
    out
}

/// Whole seconds, rounded to nearest, from microseconds.
pub fn micros_to_seconds_exec(us: u64) -> (r: u64)
    ensures
        r == micros_to_seconds(us as int),
{
    let wide: u128 = (us as u128 + 500000) / 1000000;
    proof {
        assert(wide == (us as int + 500000) / 1000000);
        assert((us as int + 500000) / 1000000 <= us as int);
    }
    wide as u64
}

/// The microseconds a probed line denotes, zero when it does not parse.
pub open spec fn probe_line_micros(lines: Seq<Seq<char>>, i: int) -> int {
    if 0 <= i < lines.len() {
        match micros_spec(trim_spec(lines[i])) {
            Some(v) => v,
            None => 0,
        }
    } else {
        0
    }
}

/// The total seconds a time field set from `total` denotes: the value
/// itself unless the hours overflow the two-digit field and are capped.
pub open spec fn capped_field_seconds(total: int) -> int {
    (if total / 3600 <= 99 {
        total / 3600
    } else {
        99
    }) * 3600 + ((total % 3600) / 60) * 60 + total % 60
}

/// Parse a timing probe's output: the first non-empty line is the start
/// time in seconds, the second the duration.  Returns the rounded start
/// and end times for the form together with the whole-second bounds, the
/// end clamped so it never precedes the start and both bounds saturated
/// at the representable maxima.
pub fn parse_probe_times(stdout: &str) -> (r: (TimeInput, TimeInput, VideoBounds))
    ensures
        r.0.wf(),
        r.1.wf(),
        ({
            let ls = nonempty_lines_of(stdout@);
            let start_us = probe_line_micros(ls, 0);
            let dur_us = probe_line_micros(ls, 1);
            let end_us = if start_us + dur_us <= u64::MAX {
                start_us + dur_us
            } else {
                u64::MAX as int
            };
            let start_s = micros_to_seconds(start_us);
            let end_s = micros_to_seconds(end_us);
            &&& r.2.start_seconds == if start_s <= u32::MAX {
                start_s
            } else {
                u32::MAX as int
            }
            &&& r.2.end_seconds == if end_s <= u32::MAX {
                end_s
            } else {
                u32::MAX as int
            }
            &&& r.0.seconds_value() == capped_field_seconds(start_s)
            &&& r.1.seconds_value() == capped_field_seconds(end_s)
        }),
{
    let lines = nonempty_lines(stdout);
    let start_us: u64 = if lines.len() > 0 {
        match parse_probe_micros(lines[0].as_str()) {
            Some(v) => v,
            None => 0,
        }
    } else {
        0
    };
    proof {
        if lines@.len() > 0 {
            assert(lines.deep_view()[0] == lines@[0]@);
        }
        assert(start_us == probe_line_micros(nonempty_lines_of(stdout@), 0));
    }
    let dur_us: u64 = if lines.len() > 1 {
        match parse_probe_micros(lines[1].as_str()) {
            Some(v) => v,
            None => 0,
        }
    } else {
        0
    };
    proof {
        if lines@.len() > 1 {
            assert(lines.deep_view()[1] == lines@[1]@);
        }
        assert(dur_us == probe_line_micros(nonempty_lines_of(stdout@), 1));
    }
    let end_us: u64 = if start_us <= u64::MAX - dur_us {
        start_us + dur_us
    } else {
        u64::MAX
    };
    let start_s = micros_to_seconds_exec(start_us);
    let end_s = micros_to_seconds_exec(end_us);
    let start_s32: u32 = if start_s <= u32::MAX as u64 {
        start_s as u32
    } else {
        u32::MAX
    };
    let end_s32: u32 = if end_s <= u32::MAX as u64 {
        end_s as u32
    } else {
        u32::MAX
    };
    let start_time = TimeInput::from_seconds(start_s);
    let end_time = TimeInput::from_seconds(end_s);
    proof {
        crate::model::lemma_two_digit_value(
            if start_s as int / 3600 <= 99 {
                start_s as int / 3600
            } else {
                99
            },
        );
        crate::model::lemma_two_digit_value((start_s as int % 3600) / 60);
        crate::model::lemma_two_digit_value(start_s as int % 60);
        crate::model::lemma_two_digit_value(
            if end_s as int / 3600 <= 99 {
                end_s as int / 3600
            } else {
                99
            },
        );
        crate::model::lemma_two_digit_value((end_s as int % 3600) / 60);
        crate::model::lemma_two_digit_value(end_s as int % 60);
    }
    (start_time, end_time, VideoBounds { start_seconds: start_s32, end_seconds: end_s32 })
}

/// The `HH:MM:SS` display of a whole number of seconds, hours capped at
/// two digits.
pub open spec fn timestamp_of_seconds(total: int) -> Seq<char> {
    crate::model::two_digit_spec(
        if total / 3600 <= 99 {
            total / 3600
        } else {
            99
        },
    ) + ":"@ + crate::model::two_digit_spec((total % 3600) / 60) + ":"@
        + crate::model::two_digit_spec(total % 60)
}

/// Index of the first `/` in `s`, or `-1`.
pub open spec fn first_slash_of(s: Seq<char>) -> int
    decreases s.len(),
{
    if s.len() == 0 {
        -1
    } else if s[0] == '/' {
        0
    } else if first_slash_of(s.skip(1)) == -1 {
        -1
    } else {
        1 + first_slash_of(s.skip(1))
    }
}

proof fn lemma_first_slash_range(s: Seq<char>)
    ensures
        first_slash_of(s) == -1 || (0 <= first_slash_of(s) < s.len()),
    decreases s.len(),
{
    if s.len() > 0 && s[0] != '/' {
        lemma_first_slash_range(s.skip(1));
    }
}

/// First-`/` scan matching [`first_slash_of`].
fn find_first_slash(s: &str) -> (r: Option<usize>)
    ensures
        r matches Some(x) ==> first_slash_of(s@) == x && x < s@.len(),
        r is None ==> first_slash_of(s@) == -1,
{
    let len = s.unicode_len();
    let mut i: usize = 0;
    proof {
        assert(s@.skip(0) =~= s@);
    }
    loop
        invariant
            i <= len,
            len == s@.len(),
            first_slash_of(s@) == if first_slash_of(s@.skip(i as int)) == -1 {
                -1
            } else {
                i + first_slash_of(s@.skip(i as int))
            },
        ensures
            i <= len,
            len == s@.len(),
            (i < len && first_slash_of(s@) == i) || (i == len && first_slash_of(s@) == -1),
        decreases len - i,
    {
        if i == len {
            proof {
                assert(s@.skip(i as int) =~= Seq::<char>::empty());
            }
            break ;
        }
        let c = s.get_char(i);
        proof {
            assert(s@.skip(i as int)[0] == s@[i as int]);
            assert(s@.skip(i as int).skip(1) =~= s@.skip(i + 1));
            lemma_first_slash_range(s@.skip(i + 1));
        }
        if c == '/' {
            break ;
        }
        i = i + 1;
    }
    if i < len {
        Some(i)
    } else {
        None
    }
}

/// The frame-rate display text of an `avg_frame_rate` value: the fraction
/// rounded to two decimals, or `n/a` when it does not parse.
pub open spec fn fps_display_spec(v: Seq<char>) -> Seq<char> {
    let sl = first_slash_of(v);
    if sl == -1 {
        "n/a"@
    } else {
        match fraction_hundredths_spec(v.take(sl), v.skip(sl + 1)) {
            Some(h) => fixed2_digits(h / 100, h % 100),
            None => "n/a"@,
        }
    }
}

/// Render an `avg_frame_rate` fraction for display.
pub fn fps_display(value: &str) -> (r: String)
    ensures
        r@ == fps_display_spec(value@),
{
    match find_first_slash(value) {
        None => String::from_str("n/a"),
        Some(sl) => {
            let len = value.unicode_len();
            let num = value.substring_char(0, sl);
            let den = value.substring_char(sl + 1, len);
            proof {
                assert(num@ =~= value@.take(sl as int));
                assert(den@ =~= value@.skip(sl + 1));
            }
            match parse_fraction_hundredths(num, den) {
                Some(h) => {
                    proof {
                        assert(h % 100 <= 99);
                    }
                    fixed2_string(h / 100, h % 100)
                },
                None => String::from_str("n/a"),
            }
        },
    }
}

/// A probed text parsed as a `u32` when it is a plain digit string whose
/// value fits.
pub open spec fn u32_of_text(v: Seq<char>) -> Option<int> {
    if is_digit_seq(v) && dec_value(v) <= u32::MAX {
        Some(dec_value(v))
    } else {
        None
    }
}

/// Parse a probed dimension.
fn parse_u32_text(value: &str) -> (r: Option<u32>)
    ensures
        u32_of_text(value@) matches Some(v) ==> (r matches Some(x) && x == v),
        u32_of_text(value@) is None ==> r is None,
{
    match parse_u64_digits(value) {
        Some(v) => {
            if v <= u32::MAX as u64 {
                Some(v as u32)
            } else {
                proof {
                    crate::text::lemma_dec_value_nonneg(value@);
                }
                None
            }
        },
        None => None,
    }
}

/// A probed text parsed as a `u64` when it is a plain digit string whose
/// value fits.
pub open spec fn u64_of_text(v: Seq<char>) -> Option<int> {
    if is_digit_seq(v) && dec_value(v) <= u64::MAX {
        Some(dec_value(v))
    } else {
        None
    }
}

/// Assemble the display statistics of a probed video from its `key=value`
/// pairs and the separately probed audio codec.
pub fn build_video_stats(pairs: &Vec<(String, String)>, audio_codec: String) -> (r: VideoStats)
    ensures
        ({
            let kv = pairs_views(pairs@);
            &&& r.video_codec@ == match lookup_spec(kv, "codec_name"@) {
                Some(v) => v,
                None => "n/a"@,
            }
            &&& r.width == match lookup_spec(kv, "width"@) {
                Some(v) => match u32_of_text(v) {
                    Some(w) => Some(w as u32),
                    None => None::<u32>,
                },
                None => None::<u32>,
            }
            &&& r.height == match lookup_spec(kv, "height"@) {
                Some(v) => match u32_of_text(v) {
                    Some(h) => Some(h as u32),
                    None => None::<u32>,
                },
                None => None::<u32>,
            }
            &&& r.resolution@ == match (r.width, r.height) {
                (Some(w), Some(h)) => dec_digits(w as int) + "x"@ + dec_digits(h as int),
                _ => "n/a"@,
            }
            &&& r.fps@ == match lookup_spec(kv, "avg_frame_rate"@) {
                Some(v) => fps_display_spec(v),
                None => "n/a"@,
            }
            &&& r.duration@ == match lookup_spec(kv, "duration"@) {
                Some(v) => match micros_spec(trim_spec(v)) {
                    Some(us) => timestamp_of_seconds(micros_to_seconds(us)),
                    None => "n/a"@,
                },
                None => "n/a"@,
            }
            &&& r.size@ == match lookup_spec(kv, "size"@) {
                Some(v) => match u64_of_text(v) {
                    Some(b) => format_bytes_spec(b),
                    None => "n/a"@,
                },
                None => "n/a"@,
            }
            &&& r.bitrate@ == match lookup_spec(kv, "bit_rate"@) {
                Some(v) => match u64_of_text(v) {
                    Some(b) => format_bitrate_spec(b),
                    None => "n/a"@,
                },
                None => "n/a"@,
            }
            &&& r.audio_codec@ == audio_codec@
        }),
{
    let video_codec = match lookup_value(pairs, "codec_name") {
        Some(v) => v,
        None => String::from_str("n/a"),
    };
    let width: Option<u32> = match lookup_value(pairs, "width") {
        Some(v) => parse_u32_text(v.as_str()),
        None => None,
    };
    let height: Option<u32> = match lookup_value(pairs, "height") {
        Some(v) => parse_u32_text(v.as_str()),
        None => None,
    };
    let resolution = match (width, height) {
        (Some(w), Some(h)) => {
            let mut s = u64_to_dec_local(w as u64);
            s.append("x");
            let hd = u64_to_dec_local(h as u64);
            s.append(hd.as_str());
            s
        },
        _ => String::from_str("n/a"),
    };
    let fps = match lookup_value(pairs, "avg_frame_rate") {
        Some(v) => fps_display(v.as_str()),
        None => String::from_str("n/a"),
    };
    let duration = match lookup_value(pairs, "duration") {
        Some(v) => {
            match parse_probe_micros(v.as_str()) {
                Some(us) => {
                    let secs = micros_to_seconds_exec(us);
                    let t = TimeInput::from_seconds(secs);
                    let ts = t.to_ffmpeg_timestamp();
                    proof {
                        assert(ts@ =~= timestamp_of_seconds(secs as int));
                    }
                    ts
                },
                None => String::from_str("n/a"),
            }
        },
        None => String::from_str("n/a"),
    };
    let size = match lookup_value(pairs, "size") {
        Some(v) => {
            match parse_u64_digits(v.as_str()) {
                Some(b) => format_bytes(b),
                None => String::from_str("n/a"),
            }
        },
        None => String::from_str("n/a"),
    };
    let (bitrate, bitrate_kbps): (String, Option<u32>) = match lookup_value(pairs, "bit_rate") {
        Some(v) => {
            match parse_u64_digits(v.as_str()) {
                Some(b) => {
                    let kb = if b <= u64::MAX - 500 {
                        crate::media::bitrate_kbps_from_bits_per_second(b)
                    } else {
                        None
                    };
                    (format_bitrate(b), kb)
                },
                None => (String::from_str("n/a"), None),
            }
        },
        None => (String::from_str("n/a"), None),
    };
    VideoStats {
        duration,
        resolution,
        width,
        height,
        fps,
        video_codec,
        audio_codec,
        size,
        bitrate,
        bitrate_kbps,
    }
}

} // verus!
