//! Parser for the downloader's capability listing: a fixed-width table on
//! stdout is turned into a ranked list of selectable quality choices.
//!
//! Rows before the header line (the one containing both `ID` and `EXT`)
//! are skipped, as are separator rows and rows for audio-only, still-image
//! or storyboard entries.  Each remaining row yields an identifier, a
//! container, a resolution, and optional frame-rate and size tokens; rows
//! are ranked by parsed size, smallest first, unsized rows last, ties in
//! table order.
use vstd::prelude::*;
use crate::text::{
    dec_value, is_alnum_char, is_digit_char, is_digit_seq, char_is_alnum, char_is_digit,
    contains_seq, str_contains, str_eq, str_matches_at, parse_u64_digits, split_lines,
    split_tokens, tokens_of, trim_of, trim_spec,
};

verus! {

/// A selectable quality: the selector token passed back to the tool, and
/// the fixed-width display row.
#[derive(Debug, Clone)]
pub struct QualityChoice {
    pub selector: String,
    pub label: String,
}

/// A parsed table row before ranking.
#[derive(Debug)]
pub struct QualityCandidate {
    pub choice: QualityChoice,
    pub size_bytes: Option<u64>,
    pub original_index: usize,
}

/// A character trimmed from both ends of a table token: `,`, `[` or `]`.
pub open spec fn is_mark_char(c: char) -> bool {
    c == ',' || c == '[' || c == ']'
}

/// Runtime check mirroring [`is_mark_char`].
fn char_is_mark(c: char) -> (r: bool)
    ensures
        r == is_mark_char(c),
{
    c == ',' || c == '[' || c == ']'
}

/// `s` with leading mark characters removed.
pub open spec fn trim_marks_start(s: Seq<char>) -> Seq<char>
    decreases s.len(),
{
    if s.len() > 0 && is_mark_char(s[0]) {
        trim_marks_start(s.skip(1))
    } else {
        s
    }
}

/// `s` with trailing mark characters removed.
pub open spec fn trim_marks_end(s: Seq<char>) -> Seq<char>
    decreases s.len(),
{
    if s.len() > 0 && is_mark_char(s.last()) {
        trim_marks_end(s.drop_last())
    } else {
        s
    }
}

/// A token with surrounding `,`/`[`/`]` punctuation removed.
pub open spec fn trim_marks(s: Seq<char>) -> Seq<char> {
    trim_marks_end(trim_marks_start(s))
}

/// Trim mark characters from both ends, returning a slice of the input.
fn trim_marks_of(s: &str) -> (r: &str)
    ensures
        r@ == trim_marks(s@),
{
    let len = s.unicode_len();
    let mut start: usize = 0;
    proof {
        assert(s@.skip(0) =~= s@);
    }
    loop
        invariant
            start <= len,
            len == s@.len(),
            trim_marks_start(s@) == trim_marks_start(s@.skip(start as int)),
        ensures
            start <= len,
            len == s@.len(),
            trim_marks_start(s@) == s@.skip(start as int),
        decreases len - start,
    {
        if start == len {
            proof {
                assert(s@.skip(start as int) =~= Seq::<char>::empty());
            }
            break ;
        }
        let c = s.get_char(start);
        proof {
            assert(s@.skip(start as int)[0] == s@[start as int]);
            assert(s@.skip(start as int).skip(1) =~= s@.skip(start + 1));
        }
        if !char_is_mark(c) {
            break ;
        }
        start = start + 1;
    }
    let mut end: usize = len;
    proof {
        assert(s@.skip(start as int).take(len - start) =~= s@.skip(start as int));
    }
    loop
        invariant
            start <= end <= len,
            len == s@.len(),
            trim_marks_start(s@) == s@.skip(start as int),
            trim_marks_end(s@.skip(start as int)) == trim_marks_end(
                s@.skip(start as int).take(end - start),
            ),
        ensures
            start <= end <= len,
            len == s@.len(),
            trim_marks_start(s@) == s@.skip(start as int),
            trim_marks_end(s@.skip(start as int)) == s@.skip(start as int).take(end - start),
        decreases end,
    {
        if end == start {
            proof {
                assert(s@.skip(start as int).take(0) =~= Seq::<char>::empty());
            }
            break ;
        }
        let c = s.get_char(end - 1);
        proof {
            let cur = s@.skip(start as int).take(end - start);
            assert(cur.last() == s@[end - 1]);
            assert(cur.drop_last() =~= s@.skip(start as int).take(end - 1 - start));
        }
        if !char_is_mark(c) {
            break ;
        }
        end = end - 1;
    }
    proof {
        assert(s@.subrange(start as int, end as int) =~= s@.skip(start as int).take(end - start));
    }
    s.substring_char(start, end)
}

/// A valid format identifier: non-empty, only ASCII letters, digits, `-`,
/// `_` and `.`.
pub open spec fn is_format_id(tok: Seq<char>) -> bool {
    tok.len() > 0 && forall|i: int|
        0 <= i < tok.len() ==> is_alnum_char(#[trigger] tok[i]) || tok[i] == '-' || tok[i] == '_'
            || tok[i] == '.'
}

/// Whether a token can serve as a format identifier.
pub fn is_format_id_token(token: &str) -> (r: bool)
    ensures
        r == is_format_id(token@),
{
    let len = token.unicode_len();
    if len == 0 {
        return false;
    }
    let mut i: usize = 0;
    while i < len
        invariant
            i <= len,
            len == token@.len(),
            forall|j: int|
                0 <= j < i ==> is_alnum_char(#[trigger] token@[j]) || token@[j] == '-'
                    || token@[j] == '_' || token@[j] == '.',
        decreases len - i,
    {
        let c = token.get_char(i);
        if !(char_is_alnum(c) || c == '-' || c == '_' || c == '.') {
            return false;
        }
        i = i + 1;
    }
    true
}

/// Index of the first `x` in `s`, or `-1`.
pub open spec fn first_x_of(s: Seq<char>) -> int
    decreases s.len(),
{
    if s.len() == 0 {
        -1
    } else if s[0] == 'x' {
        0
    } else if first_x_of(s.skip(1)) == -1 {
        -1
    } else {
        1 + first_x_of(s.skip(1))
    }
}

/// Whether a cleaned token reads `<digits>x<digits>`.
pub open spec fn is_resolution_clean(c: Seq<char>) -> bool {
    let x = first_x_of(c);
    &&& x >= 0
    &&& is_digit_seq(c.take(x))
    &&& is_digit_seq(c.skip(x + 1))
}

proof fn lemma_first_x_range(s: Seq<char>)
    ensures
        first_x_of(s) == -1 || (0 <= first_x_of(s) < s.len()),
    decreases s.len(),
{
    if s.len() > 0 && s[0] != 'x' {
        lemma_first_x_range(s.skip(1));
    }
}

/// First-`x` scan matching [`first_x_of`].
fn find_first_x(s: &str) -> (r: Option<usize>)
    ensures
        r matches Some(x) ==> first_x_of(s@) == x && x < s@.len(),
        r is None ==> first_x_of(s@) == -1,
{
    let len = s.unicode_len();
    let mut i: usize = 0;
    proof {
        assert(s@.skip(0) =~= s@);
    }
    loop
        invariant
            i <= len,
            len == s@.len(),
            first_x_of(s@) == if first_x_of(s@.skip(i as int)) == -1 {
                -1
            } else {
                i + first_x_of(s@.skip(i as int))
            },
        ensures
            i <= len,
            len == s@.len(),
            (i < len && first_x_of(s@) == i) || (i == len && first_x_of(s@) == -1),
        decreases len - i,
    {
        if i == len {
            proof {
                assert(s@.skip(i as int) =~= Seq::<char>::empty());
            }
            break ;
        }
        let c = s.get_char(i);
        proof {
            assert(s@.skip(i as int)[0] == s@[i as int]);
            assert(s@.skip(i as int).skip(1) =~= s@.skip(i + 1));
            lemma_first_x_range(s@.skip(i + 1));
        }
        if c == 'x' {
            break ;
        }
        i = i + 1;
    }
    if i < len {
        Some(i)
    } else {
        None
    }
}

/// Check that every character of `s` in `[from, to)` is a digit.
fn all_digits_in(s: &str, from: usize, to: usize) -> (r: bool)
    requires
        from <= to <= s@.len(),
    ensures
        r == forall|j: int| from <= j < to ==> is_digit_char(#[trigger] s@[j]),
{
    let mut i: usize = from;
    while i < to
        invariant
            from <= i <= to <= s@.len(),
            forall|j: int| from <= j < i ==> is_digit_char(#[trigger] s@[j]),
        decreases to - i,
    {
        if !char_is_digit(s.get_char(i)) {
            return false;
        }
        i = i + 1;
    }
    true
}

/// Whether one token is a resolution; returns the cleaned token.
fn token_as_resolution(tok: &str) -> (r: Option<String>)
    ensures
        is_resolution_clean(trim_marks(tok@)) ==> (r matches Some(c) && c@ == trim_marks(tok@)),
        !is_resolution_clean(trim_marks(tok@)) ==> r is None,
{
    let clean = trim_marks_of(tok);
    let clen = clean.unicode_len();
    let Some(x) = find_first_x(clean) else {
        return None;
    };
    if x == 0 || x + 1 >= clen {
        proof {
            if x == 0 {
                assert(clean@.take(0) =~= Seq::<char>::empty());
            } else {
                assert(clean@.skip(x + 1) =~= Seq::<char>::empty());
            }
        }
        return None;
    }
    if !all_digits_in(clean, 0, x) {
        proof {
            let pre = clean@.take(x as int);
            assert(exists|j: int| 0 <= j < x && !is_digit_char(#[trigger] clean@[j]));
            let j = choose|j: int| 0 <= j < x && !is_digit_char(#[trigger] clean@[j]);
            assert(pre[j] == clean@[j]);
        }
        return None;
    }
    if !all_digits_in(clean, x + 1, clen) {
        proof {
            let post = clean@.skip(x + 1);
            assert(exists|j: int| x + 1 <= j < clen && !is_digit_char(#[trigger] clean@[j]));
            let j = choose|j: int| x + 1 <= j < clen && !is_digit_char(#[trigger] clean@[j]);
            assert(post[j - x - 1] == clean@[j]);
        }
        return None;
    }
    proof {
        let pre = clean@.take(x as int);
        let post = clean@.skip(x + 1);
        assert(forall|j: int| 0 <= j < pre.len() ==> is_digit_char(#[trigger] pre[j]));
        assert(forall|j: int|
            0 <= j < post.len() ==> post[j] == clean@[x + 1 + j] && is_digit_char(
                clean@[x + 1 + j],
            ));
        assert(forall|j: int| 0 <= j < post.len() ==> is_digit_char(#[trigger] post[j]));
    }
    Some(String::from_str(clean))
}

/// `s` with all trailing commas removed.
pub open spec fn trim_end_commas(s: Seq<char>) -> Seq<char>
    decreases s.len(),
{
    if s.len() > 0 && s.last() == ',' {
        trim_end_commas(s.drop_last())
    } else {
        s
    }
}

/// Whether a comma-stripped token reads `<digits>fps`.
pub open spec fn is_fps_clean(c: Seq<char>) -> bool {
    c.len() >= 4 && c.skip(c.len() - 3) == "fps"@ && is_digit_seq(c.take(c.len() - 3))
}

/// Whether one token is a frame-rate; returns the comma-stripped token.
fn token_as_fps(tok: &str) -> (r: Option<String>)
    ensures
        is_fps_clean(trim_end_commas(tok@)) ==> (r matches Some(c) && c@ == trim_end_commas(tok@)),
        !is_fps_clean(trim_end_commas(tok@)) ==> r is None,
{
    let len = tok.unicode_len();
    let mut end: usize = len;
    proof {
        assert(tok@.take(len as int) =~= tok@);
    }
    loop
        invariant
            end <= len,
            len == tok@.len(),
            trim_end_commas(tok@) == trim_end_commas(tok@.take(end as int)),
        ensures
            end <= len,
            len == tok@.len(),
            trim_end_commas(tok@) == tok@.take(end as int),
        decreases end,
    {
        if end == 0 {
            proof {
                assert(tok@.take(0) =~= Seq::<char>::empty());
            }
            break ;
        }
        let c = tok.get_char(end - 1);
        proof {
            let cur = tok@.take(end as int);
            assert(cur.last() == tok@[end - 1]);
            assert(cur.drop_last() =~= tok@.take(end - 1));
        }
        if c != ',' {
            break ;
        }
        end = end - 1;
    }
    let clean = tok.substring_char(0, end);
    proof {
        assert(clean@ =~= trim_end_commas(tok@));
    }
    let clen = clean.unicode_len();
    if clen < 4 {
        return None;
    }
    proof {
        reveal_strlit("fps");
    }
    if !str_matches_at(clean, "fps", clen - 3) {
        proof {
            assert(clean@.skip(clen - 3) =~= clean@.subrange(clen - 3, clen - 3 + "fps"@.len()));
        }
        return None;
    }
    if !all_digits_in(clean, 0, clen - 3) {
        proof {
            let pre = clean@.take(clen - 3);
            let j = choose|j: int| 0 <= j < clen - 3 && !is_digit_char(#[trigger] clean@[j]);
            assert(pre[j] == clean@[j]);
        }
        return None;
    }
    proof {
        assert(clean@.skip(clen - 3) =~= clean@.subrange(clen - 3, clen - 3 + "fps"@.len()));
        let pre = clean@.take(clen - 3);
        assert(forall|j: int| 0 <= j < pre.len() ==> is_digit_char(#[trigger] pre[j]));
    }
    Some(String::from_str(clean))
}

/// Length of the leading run of digits and dots.
pub open spec fn num_run_of(s: Seq<char>) -> int
    decreases s.len(),
{
    if s.len() > 0 && (is_digit_char(s[0]) || s[0] == '.') {
        1 + num_run_of(s.skip(1))
    } else {
        0
    }
}

/// A recognized size unit suffix.
pub open spec fn is_size_unit(u: Seq<char>) -> bool {
    u == "B"@ || u == "KiB"@ || u == "MiB"@ || u == "GiB"@ || u == "TiB"@
}

/// The byte multiplier of a size unit.
pub open spec fn size_unit_mult(u: Seq<char>) -> int {
    if u == "B"@ {
        1
    } else if u == "KiB"@ {
        0x400
    } else if u == "MiB"@ {
        0x100000
    } else if u == "GiB"@ {
        0x40000000
    } else {
        0x10000000000
    }
}

/// Leading-run scan matching [`num_run_of`].
fn find_num_run(s: &str) -> (r: usize)
    ensures
        r == num_run_of(s@),
        r <= s@.len(),
{
    let len = s.unicode_len();
    let mut i: usize = 0;
    proof {
        assert(s@.skip(0) =~= s@);
    }
    loop
        invariant
            i <= len,
            len == s@.len(),
            num_run_of(s@) == i + num_run_of(s@.skip(i as int)),
        ensures
            i <= len,
            len == s@.len(),
            num_run_of(s@) == i,
        decreases len - i,
    {
        if i == len {
            proof {
                assert(s@.skip(i as int) =~= Seq::<char>::empty());
            }
            break ;
        }
        let c = s.get_char(i);
        proof {
            assert(s@.skip(i as int)[0] == s@[i as int]);
            assert(s@.skip(i as int).skip(1) =~= s@.skip(i + 1));
        }
        if !(char_is_digit(c) || c == '.') {
            break ;
        }
        i = i + 1;
    }
    i
}

/// `s` with one leading `~` removed, as the size-token scan does.
pub open spec fn strip_one_tilde(s: Seq<char>) -> Seq<char> {
    if s.len() > 0 && s[0] == '~' {
        s.skip(1)
    } else {
        s
    }
}

/// Whether a cleaned token is a size: optional `~`, a leading run of
/// digits or dots, at least three characters, and a recognized unit.
pub open spec fn is_size_clean(c: Seq<char>) -> bool {
    let n = strip_one_tilde(c);
    &&& n.len() >= 3
    &&& num_run_of(n) > 0
    &&& is_size_unit(n.skip(num_run_of(n)))
}

/// Whether one token is a size; returns the cleaned token (tilde kept).
fn token_as_size(tok: &str) -> (r: Option<String>)
    ensures
        is_size_clean(trim_marks(tok@)) ==> (r matches Some(c) && c@ == trim_marks(tok@)),
        !is_size_clean(trim_marks(tok@)) ==> r is None,
{
    let clean = trim_marks_of(tok);
    let clen = clean.unicode_len();
    let tilde: usize = if clen > 0 && clean.get_char(0) == '~' {
        1
    } else {
        0
    };
    let norm = clean.substring_char(tilde, clen);
    proof {
        assert(norm@ =~= strip_one_tilde(clean@));
    }
    if norm.unicode_len() < 3 {
        return None;
    }
    let run = find_num_run(norm);
    if run == 0 {
        return None;
    }
    let unit = norm.substring_char(run, norm.unicode_len());
    proof {
        assert(unit@ =~= strip_one_tilde(clean@).skip(num_run_of(strip_one_tilde(clean@))));
    }
    if str_eq(unit, "B") || str_eq(unit, "KiB") || str_eq(unit, "MiB") || str_eq(unit, "GiB")
        || str_eq(unit, "TiB") {
        Some(String::from_str(clean))
    } else {
        None
    }
}

/// `s` with every leading `~` removed, as the size parser does.
pub open spec fn strip_all_tildes(s: Seq<char>) -> Seq<char>
    decreases s.len(),
{
    if s.len() > 0 && s[0] == '~' {
        strip_all_tildes(s.skip(1))
    } else {
        s
    }
}

/// Index of the first `.` in `s`, or `-1`.
pub open spec fn first_dot_of(s: Seq<char>) -> int
    decreases s.len(),
{
    if s.len() == 0 {
        -1
    } else if s[0] == '.' {
        0
    } else if first_dot_of(s.skip(1)) == -1 {
        -1
    } else {
        1 + first_dot_of(s.skip(1))
    }
}

proof fn lemma_first_dot_range(s: Seq<char>)
    ensures
        first_dot_of(s) == -1 || (0 <= first_dot_of(s) < s.len()),
    decreases s.len(),
{
    if s.len() > 0 && s[0] != '.' {
        lemma_first_dot_range(s.skip(1));
    }
}

/// Ten to the `m`.
pub open spec fn pow10(m: int) -> int
    decreases m,
{
    if m <= 0 {
        1
    } else {
        10 * pow10(m - 1)
    }
}

/// Ten to any power is at least one.
proof fn lemma_pow10_pos(a: int)
    ensures
        pow10(a) >= 1,
    decreases a,
{
    if a > 0 {
        lemma_pow10_pos(a - 1);
    }
}

/// Ten to the power is monotone in the exponent.
pub proof fn lemma_pow10_le(a: int, b: int)
    requires
        a <= b,
    ensures
        pow10(a) <= pow10(b),
        pow10(a) >= 1,
    decreases b - a,
{
    lemma_pow10_pos(a);
    if a < b {
        lemma_pow10_le(a, b - 1);
        if b > 0 {
            assert(pow10(b) == 10 * pow10(b - 1));
        }
    }
}

/// The leading numeric run holds only digits and dots.
proof fn lemma_num_run_chars(s: Seq<char>)
    ensures
        0 <= num_run_of(s) <= s.len(),
        forall|j: int|
            0 <= j < num_run_of(s) ==> is_digit_char(#[trigger] s[j]) || s[j] == '.',
    decreases s.len(),
{
    if s.len() > 0 && (is_digit_char(s[0]) || s[0] == '.') {
        lemma_num_run_chars(s.skip(1));
        assert(forall|j: int|
            1 <= j < num_run_of(s) ==> s[j] == s.skip(1)[j - 1] && (is_digit_char(s.skip(1)[j - 1])
                || s.skip(1)[j - 1] == '.'));
    }
}

/// No dot appears before the first dot.
proof fn lemma_first_dot_prefix(s: Seq<char>)
    ensures
        first_dot_of(s) >= 0 ==> forall|j: int| 0 <= j < first_dot_of(s) ==> s[j] != '.',
        first_dot_of(s) == -1 ==> forall|j: int| 0 <= j < s.len() ==> s[j] != '.',
    decreases s.len(),
{
    lemma_first_dot_range(s);
    if s.len() > 0 && s[0] != '.' {
        lemma_first_dot_prefix(s.skip(1));
        lemma_first_dot_range(s.skip(1));
        if first_dot_of(s) >= 0 {
            assert forall|j: int| 0 <= j < first_dot_of(s) implies s[j] != '.' by {
                if j > 0 {
                    assert(s[j] == s.skip(1)[j - 1]);
                }
            }
        } else {
            assert forall|j: int| 0 <= j < s.len() implies s[j] != '.' by {
                if j > 0 {
                    assert(s[j] == s.skip(1)[j - 1]);
                }
            }
        }
    }
}

/// A digit sequence of length `n` denotes less than ten to the `n`.
pub proof fn lemma_dec_value_bound(s: Seq<char>)
    requires
        forall|i: int| 0 <= i < s.len() ==> is_digit_char(#[trigger] s[i]),
    ensures
        0 <= dec_value(s) < pow10(s.len() as int),
    decreases s.len(),
{
    if s.len() > 0 {
        lemma_dec_value_bound(s.drop_last());
    }
}

/// The numeric part of a size token: non-empty digits with at most one
/// dot, an integral part that fits in a `u64`, and at most six decimals.
pub open spec fn size_number_valid(num: Seq<char>) -> bool {
    let d = first_dot_of(num);
    &&& num.len() > 0
    &&& if d == -1 {
        is_digit_seq(num) && dec_value(num) <= u64::MAX
    } else {
        let frac = num.skip(d + 1);
        &&& forall|i: int| 0 <= i < frac.len() ==> is_digit_char(#[trigger] frac[i])
        &&& num.len() > 1
        &&& frac.len() <= 6
        &&& (d == 0 || dec_value(num.take(d)) <= u64::MAX)
    }
}

/// The rounded byte count for an integral part, a fractional part of `m`
/// digits, and a unit multiplier: round-half-up of the exact product.
pub open spec fn size_round(ival: int, fval: int, m: int, mult: int) -> int {
    ((ival * pow10(m) + fval) * mult * 2 + pow10(m)) / (2 * pow10(m))
}

/// The byte value a size token denotes, saturated at `u64::MAX`;
/// `None` when the token is `--`, empty, or not a number-and-unit pair.
pub open spec fn size_bytes_spec(tok: Seq<char>) -> Option<int> {
    let t = strip_all_tildes(trim_spec(tok));
    if t.len() == 0 || t == "--"@ {
        None
    } else {
        let k = num_run_of(t);
        if k >= t.len() {
            None
        } else {
            let num = t.take(k);
            let unit = t.skip(k);
            if !size_number_valid(num) {
                None
            } else if !is_size_unit(unit) {
                None
            } else {
                let d = first_dot_of(num);
                let raw = if d == -1 {
                    size_round(dec_value(num), 0, 0, size_unit_mult(unit))
                } else {
                    size_round(
                        dec_value(num.take(d)),
                        dec_value(num.skip(d + 1)),
                        num.skip(d + 1).len() as int,
                        size_unit_mult(unit),
                    )
                };
                if raw > u64::MAX {
                    Some(u64::MAX as int)
                } else {
                    Some(raw)
                }
            }
        }
    }
}

/// First-dot scan matching [`first_dot_of`].
pub fn find_first_dot(s: &str) -> (r: Option<usize>)
    ensures
        r matches Some(x) ==> first_dot_of(s@) == x && x < s@.len(),
        r is None ==> first_dot_of(s@) == -1,
{
    let len = s.unicode_len();
    let mut i: usize = 0;
    proof {
        assert(s@.skip(0) =~= s@);
    }
    loop
        invariant
            i <= len,
            len == s@.len(),
            first_dot_of(s@) == if first_dot_of(s@.skip(i as int)) == -1 {
                -1
            } else {
                i + first_dot_of(s@.skip(i as int))
            },
        ensures
            i <= len,
            len == s@.len(),
            (i < len && first_dot_of(s@) == i) || (i == len && first_dot_of(s@) == -1),
        decreases len - i,
    {
        if i == len {
            proof {
                assert(s@.skip(i as int) =~= Seq::<char>::empty());
            }
            break ;
        }
        let c = s.get_char(i);
        proof {
            assert(s@.skip(i as int)[0] == s@[i as int]);
            assert(s@.skip(i as int).skip(1) =~= s@.skip(i + 1));
            lemma_first_dot_range(s@.skip(i + 1));
        }
        if c == '.' {
            break ;
        }
        i = i + 1;
    }
    if i < len {
        Some(i)
    } else {
        None
    }
}

/// Ten to the `m` for small exponents.
pub fn pow10_exec(m: usize) -> (r: u128)
    requires
        m <= 6,
    ensures
        r == pow10(m as int),
        1 <= r <= 1000000,
{
    proof {
        assert(pow10(0) == 1);
        assert(pow10(1) == 10);
        assert(pow10(2) == 100);
        assert(pow10(3) == 1000);
        assert(pow10(4) == 10000);
        assert(pow10(5) == 100000);
        assert(pow10(6) == 1000000);
    }
    match m {
        0 => 1,
        1 => 10,
        2 => 100,
        3 => 1000,
        4 => 10000,
        5 => 100000,
        _ => 1000000,
    }
}

/// Parse a size token such as `~12.3MiB` into a whole byte count.
///
/// The numeric part may be fractional; the value is multiplied by the
/// unit's power of 1024 and rounded half-up to whole bytes, saturating at
/// `u64::MAX`.  Tokens without a recognized unit, `--`, and numbers with
/// more than one dot, more than six decimals, or an integral part beyond
/// `u64::MAX` give `None`.
pub fn parse_size_bytes(size_token: &str) -> (r: Option<u64>)
    ensures
        size_bytes_spec(size_token@) matches Some(v) ==> (r matches Some(b) && b == v),
        size_bytes_spec(size_token@) is None ==> r is None,
{
    let trimmed = trim_of(size_token);
    let tlen = trimmed.unicode_len();
    let mut start: usize = 0;
    proof {
        assert(trimmed@.skip(0) =~= trimmed@);
    }
    loop
        invariant
            start <= tlen,
            tlen == trimmed@.len(),
            strip_all_tildes(trimmed@) == strip_all_tildes(trimmed@.skip(start as int)),
        ensures
            start <= tlen,
            tlen == trimmed@.len(),
            strip_all_tildes(trimmed@) == trimmed@.skip(start as int),
        decreases tlen - start,
    {
        if start == tlen {
            proof {
                assert(trimmed@.skip(start as int) =~= Seq::<char>::empty());
            }
            break ;
        }
        let c = trimmed.get_char(start);
        proof {
            assert(trimmed@.skip(start as int)[0] == trimmed@[start as int]);
            assert(trimmed@.skip(start as int).skip(1) =~= trimmed@.skip(start + 1));
        }
        if c != '~' {
            break ;
        }
        start = start + 1;
    }
    let t = trimmed.substring_char(start, tlen);
    proof {
        assert(t@ =~= strip_all_tildes(trim_spec(size_token@)));
    }
    let len = t.unicode_len();
    if len == 0 {
        return None;
    }
    if str_eq(t, "--") {
        return None;
    }
    let k = find_num_run(t);
    if k >= len {
        return None;
    }
    let num = t.substring_char(0, k);
    let unit = t.substring_char(k, len);
    proof {
        assert(num@ =~= t@.take(k as int));
        assert(unit@ =~= t@.skip(k as int));
    }
    if num.unicode_len() == 0 {
        return None;
    }
    let mult: u128 = if str_eq(unit, "B") {
        1
    } else if str_eq(unit, "KiB") {
        0x400
    } else if str_eq(unit, "MiB") {
        0x100000
    } else if str_eq(unit, "GiB") {
        0x40000000
    } else if str_eq(unit, "TiB") {
        0x10000000000
    } else {
        return None;
    };
    let nlen = num.unicode_len();
    let (ival, fval, m): (u64, u64, usize) = match find_first_dot(num) {
        None => {
            match parse_u64_digits(num) {
                Some(v) => (v, 0u64, 0usize),
                None => {
                    return None;
                },
            }
        },
        Some(d) => {
            if nlen <= 1 {
                return None;
            }
            let frac = num.substring_char(d + 1, nlen);
            proof {
                assert(frac@ =~= num@.skip(d + 1));
            }
            if !all_digits_in(num, d + 1, nlen) {
                proof {
                    let j = choose|j: int|
                        d + 1 <= j < nlen && !is_digit_char(#[trigger] num@[j]);
                    assert(frac@[j - d - 1] == num@[j]);
                }
                return None;
            }
            proof {
                assert(forall|i: int|
                    0 <= i < frac@.len() ==> frac@[i] == num@[d + 1 + i] && is_digit_char(
                        num@[d + 1 + i],
                    ));
            }
            let flen = frac.unicode_len();
            if flen > 6 {
                return None;
            }
            let ipart = num.substring_char(0, d);
            proof {
                assert(ipart@ =~= num@.take(d as int));
            }
            let iv: u64 = if d == 0 {
                proof {
                    assert(ipart@.len() == 0);
                }
                0
            } else {
                proof {
                    lemma_num_run_chars(t@);
                    lemma_first_dot_prefix(num@);
                    assert(forall|j: int|
                        0 <= j < ipart@.len() ==> ipart@[j] == num@[j] && num@[j] == t@[j]);
                    assert(is_digit_seq(ipart@));
                }
                match parse_u64_digits(ipart) {
                    Some(v) => v,
                    None => {
                        return None;
                    },
                }
            };
            let fv: u64 = if flen == 0 {
                proof {
                    assert(frac@.len() == 0);
                }
                0
            } else {
                match parse_u64_digits(frac) {
                    Some(v) => v,
                    None => {
                        proof {
                            lemma_dec_value_bound(frac@);
                            lemma_pow10_le(frac@.len() as int, 6);
                            assert(pow10(0) == 1);
                            assert(pow10(1) == 10);
                            assert(pow10(2) == 100);
                            assert(pow10(3) == 1000);
                            assert(pow10(4) == 10000);
                            assert(pow10(5) == 100000);
                            assert(pow10(6) == 1000000);
                        }
                        return None;
                    },
                }
            };
            (iv, fv, flen)
        },
    };
    proof {
        assert(pow10(0) == 1);
        if first_dot_of(num@) >= 0 {
            lemma_dec_value_bound(num@.skip(first_dot_of(num@) + 1));
        }
    }
    let p: u128 = pow10_exec(m);
    proof {
        assert((ival as int) * (p as int) <= 0xFFFF_FFFF_FFFF_FFFF * 1000000int)
            by (nonlinear_arith)
            requires
                ival <= 0xFFFF_FFFF_FFFF_FFFFu64,
                1 <= p <= 1000000u128,
        ;
        assert((ival as int) * (p as int) >= 0) by (nonlinear_arith)
            requires
                ival >= 0,
                p >= 1,
        ;
        assert((0xFFFF_FFFF_FFFF_FFFF * 1000000int + 0xFFFF_FFFF_FFFF_FFFF) * 0x10000000000 * 2
            + 1000000 <= u128::MAX);
        assert(((ival as int) * (p as int) + fval) * (mult as int) * 2 <= (0xFFFF_FFFF_FFFF_FFFF
            * 1000000int + 0xFFFF_FFFF_FFFF_FFFF) * 0x10000000000 * 2) by (nonlinear_arith)
            requires
                0 <= (ival as int) * (p as int) <= 0xFFFF_FFFF_FFFF_FFFF * 1000000int,
                fval <= 0xFFFF_FFFF_FFFF_FFFFu64,
                1 <= mult <= 0x10000000000u128,
        ;
        assert(((ival as int) * (p as int) + fval) * (mult as int) * 2 >= 0) by (nonlinear_arith)
            requires
                0 <= (ival as int) * (p as int),
                fval >= 0,
                mult >= 1,
        ;
    }
    let scaled: u128 = (ival as u128 * p + fval as u128) * mult * 2 + p;
    let raw: u128 = scaled / (2 * p);
    proof {
        assert(raw == size_round(ival as int, fval as int, m as int, mult as int));
    }
    if raw > u64::MAX as u128 {
        Some(u64::MAX)
    } else {
        Some(raw as u64)
    }
}

/// The first resolution token of a row, cleaned.
pub open spec fn find_resolution(toks: Seq<Seq<char>>) -> Option<Seq<char>>
    decreases toks.len(),
{
    if toks.len() == 0 {
        None
    } else if is_resolution_clean(trim_marks(toks[0])) {
        Some(trim_marks(toks[0]))
    } else {
        find_resolution(toks.skip(1))
    }
}

/// The first frame-rate token of a row, comma-stripped.
pub open spec fn find_fps(toks: Seq<Seq<char>>) -> Option<Seq<char>>
    decreases toks.len(),
{
    if toks.len() == 0 {
        None
    } else if is_fps_clean(trim_end_commas(toks[0])) {
        Some(trim_end_commas(toks[0]))
    } else {
        find_fps(toks.skip(1))
    }
}

/// The first size token of a row, cleaned with any `~` kept.
pub open spec fn find_size(toks: Seq<Seq<char>>) -> Option<Seq<char>>
    decreases toks.len(),
{
    if toks.len() == 0 {
        None
    } else if is_size_clean(trim_marks(toks[0])) {
        Some(trim_marks(toks[0]))
    } else {
        find_size(toks.skip(1))
    }
}

/// Find the row's `<width>x<height>` resolution token.
pub fn extract_resolution_token(line: &str) -> (r: Option<String>)
    ensures
        find_resolution(tokens_of(line@)) matches Some(c) ==> (r matches Some(s) && s@ == c),
        find_resolution(tokens_of(line@)) is None ==> r is None,
{
    let toks = split_tokens(line);
    let mut i: usize = 0;
    proof {
        assert(toks.deep_view().skip(0) =~= toks.deep_view());
    }
    while i < toks.len()
        invariant
            i <= toks@.len(),
            toks.deep_view() == tokens_of(line@),
            find_resolution(tokens_of(line@)) == find_resolution(toks.deep_view().skip(i as int)),
        decreases toks@.len() - i,
    {
        proof {
            assert(toks.deep_view().skip(i as int)[0] == toks.deep_view()[i as int]);
            assert(toks.deep_view().skip(i as int).skip(1) =~= toks.deep_view().skip(i + 1));
            assert(toks.deep_view()[i as int] == toks@[i as int]@);
        }
        match token_as_resolution(toks[i].as_str()) {
            Some(c) => {
                return Some(c);
            },
            None => {},
        }
        i = i + 1;
    }
    proof {
        assert(toks.deep_view().skip(toks@.len() as int) =~= Seq::<Seq<char>>::empty());
    }
    None
}

/// Find the row's `<digits>fps` frame-rate token.
pub fn extract_fps_token(line: &str) -> (r: Option<String>)
    ensures
        find_fps(tokens_of(line@)) matches Some(c) ==> (r matches Some(s) && s@ == c),
        find_fps(tokens_of(line@)) is None ==> r is None,
{
    let toks = split_tokens(line);
    let mut i: usize = 0;
    proof {
        assert(toks.deep_view().skip(0) =~= toks.deep_view());
    }
    while i < toks.len()
        invariant
            i <= toks@.len(),
            toks.deep_view() == tokens_of(line@),
            find_fps(tokens_of(line@)) == find_fps(toks.deep_view().skip(i as int)),
        decreases toks@.len() - i,
    {
        proof {
            assert(toks.deep_view().skip(i as int)[0] == toks.deep_view()[i as int]);
            assert(toks.deep_view().skip(i as int).skip(1) =~= toks.deep_view().skip(i + 1));
            assert(toks.deep_view()[i as int] == toks@[i as int]@);
        }
        match token_as_fps(toks[i].as_str()) {
            Some(c) => {
                return Some(c);
            },
            None => {},
        }
        i = i + 1;
    }
    proof {
        assert(toks.deep_view().skip(toks@.len() as int) =~= Seq::<Seq<char>>::empty());
    }
    None
}

/// Find the row's `<number><unit>` size token.
pub fn extract_size_token(line: &str) -> (r: Option<String>)
    ensures
        find_size(tokens_of(line@)) matches Some(c) ==> (r matches Some(s) && s@ == c),
        find_size(tokens_of(line@)) is None ==> r is None,
{
    let toks = split_tokens(line);
    let mut i: usize = 0;
    proof {
        assert(toks.deep_view().skip(0) =~= toks.deep_view());
    }
    while i < toks.len()
        invariant
            i <= toks@.len(),
            toks.deep_view() == tokens_of(line@),
            find_size(tokens_of(line@)) == find_size(toks.deep_view().skip(i as int)),
        decreases toks@.len() - i,
    {
        proof {
            assert(toks.deep_view().skip(i as int)[0] == toks.deep_view()[i as int]);
            assert(toks.deep_view().skip(i as int).skip(1) =~= toks.deep_view().skip(i + 1));
            assert(toks.deep_view()[i as int] == toks@[i as int]@);
        }
        match token_as_size(toks[i].as_str()) {
            Some(c) => {
                return Some(c);
            },
            None => {},
        }
        i = i + 1;
    }
    proof {
        assert(toks.deep_view().skip(toks@.len() as int) =~= Seq::<Seq<char>>::empty());
    }
    None
}

/// `n` spaces.
pub open spec fn spaces(n: int) -> Seq<char>
    decreases n,
{
    if n <= 0 {
        Seq::empty()
    } else {
        spaces(n - 1).push(' ')
    }
}

/// `s` padded with spaces on the right to width `w`.
pub open spec fn pad_spec(s: Seq<char>, w: int) -> Seq<char> {
    s + spaces(w - s.len())
}

/// Pad a column value with spaces to the given width.
fn pad_right(s: &str, w: usize) -> (r: String)
    ensures
        r@ == pad_spec(s@, w as int),
{
    let mut out = String::from_str(s);
    let len = s.unicode_len();
    let mut k: usize = len;
    proof {
        assert(out@ =~= s@ + spaces(0));
    }
    while k < w
        invariant
            len <= k,
            k <= w || k == len,
            len == s@.len(),
            out@ == s@ + spaces(k - len),
        decreases w - k,
    {
        out.append(" ");
        proof {
            reveal_strlit(" ");
            assert(" "@ =~= seq![' ']);
            assert(s@ + spaces(k - len) + seq![' '] =~= s@ + spaces(k + 1 - len));
        }
        k = k + 1;
    }
    proof {
        if len >= w {
            assert(spaces(0) =~= Seq::<char>::empty());
            assert(spaces(w - s@.len()) =~= Seq::<char>::empty());
        }
        assert(out@ =~= s@ + spaces(w - s@.len()));
    }
    out
}

/// One fixed-width display row: identifier, container, resolution, frame
/// rate, size, has-audio, and kind columns.
pub open spec fn columns_spec(
    id: Seq<char>,
    ext: Seq<char>,
    res: Seq<char>,
    fps: Seq<char>,
    size: Seq<char>,
    audio: Seq<char>,
    kind: Seq<char>,
) -> Seq<char> {
    pad_spec(id, 7) + " "@ + pad_spec(ext, 4) + " "@ + pad_spec(res, 9) + " "@ + pad_spec(fps, 6)
        + " "@ + pad_spec(size, 10) + " "@ + pad_spec(audio, 5) + " "@ + kind
}

/// Format one display row of the quality list.
pub fn format_quality_columns(
    id: &str,
    ext: &str,
    resolution: &str,
    fps: &str,
    size: &str,
    audio: &str,
    kind: &str,
) -> (r: String)
    ensures
        r@ == columns_spec(id@, ext@, resolution@, fps@, size@, audio@, kind@),
{
    let mut out = pad_right(id, 7);
    out.append(" ");
    let c2 = pad_right(ext, 4);
    out.append(c2.as_str());
    out.append(" ");
    let c3 = pad_right(resolution, 9);
    out.append(c3.as_str());
    out.append(" ");
    let c4 = pad_right(fps, 6);
    out.append(c4.as_str());
    out.append(" ");
    let c5 = pad_right(size, 10);
    out.append(c5.as_str());
    out.append(" ");
    let c6 = pad_right(audio, 5);
    out.append(c6.as_str());
    out.append(" ");
    out.append(kind);
    out
}

/// The display row of the synthetic automatic/best choice.
pub open spec fn auto_label_spec() -> Seq<char> {
    columns_spec("AUTO"@, "auto"@, "best"@, "--"@, "--"@, "auto"@, "video"@)
}

/// The synthetic automatic/best choice that always heads the list.
pub fn default_downloader_quality_choice() -> (r: QualityChoice)
    ensures
        r.selector@ == "bestvideo+bestaudio/best"@,
        r.label@ == auto_label_spec(),
{
    QualityChoice {
        selector: String::from_str("bestvideo+bestaudio/best"),
        label: format_quality_columns("AUTO", "auto", "best", "--", "--", "auto", "video"),
    }
}

/// What one in-table row contributes: selector, display label, and parsed
/// size, or nothing for a rejected row.
pub open spec fn row_of(t: Seq<char>) -> Option<(Seq<char>, Seq<char>, Option<int>)> {
    let toks = tokens_of(t);
    if toks.len() == 0 {
        None
    } else if !is_format_id(toks[0]) {
        None
    } else if contains_seq(t, "audio only"@) || contains_seq(t, "images"@) || contains_seq(
        t,
        "storyboard"@,
    ) {
        None
    } else if toks.len() < 2 {
        None
    } else {
        match find_resolution(toks) {
            None => None,
            Some(res) => {
                let fps = match find_fps(toks) {
                    Some(f) => f,
                    None => "--"@,
                };
                let size_str = match find_size(toks) {
                    Some(sz) => sz,
                    None => "--"@,
                };
                let size_bytes = size_bytes_spec(size_str);
                let video_only = contains_seq(t, "video only"@);
                let selector = if video_only {
                    toks[0] + "+bestaudio/best"@
                } else {
                    toks[0]
                };
                let audio = if video_only {
                    "no"@
                } else {
                    "yes"@
                };
                let kind = if video_only {
                    "video"@
                } else {
                    "muxed"@
                };
                Some(
                    (
                        selector,
                        columns_spec(toks[0], toks[1], res, fps, size_str, audio, kind),
                        size_bytes,
                    ),
                )
            },
        }
    }
}

/// The parser state folded over one line of the listing.
pub open spec fn table_step(
    in_table: bool,
    seen: Seq<Seq<char>>,
    cands: Seq<(Seq<char>, Seq<char>, Option<int>, int)>,
    line: Seq<char>,
) -> (bool, Seq<Seq<char>>, Seq<(Seq<char>, Seq<char>, Option<int>, int)>) {
    let t = trim_spec(line);
    if t.len() == 0 {
        (in_table, seen, cands)
    } else if !in_table {
        if contains_seq(t, "ID"@) && contains_seq(t, "EXT"@) {
            (true, seen, cands)
        } else {
            (false, seen, cands)
        }
    } else if cands.len() >= 79 {
        (in_table, seen, cands)
    } else if t[0] == '-' {
        (in_table, seen, cands)
    } else {
        match row_of(t) {
            None => (in_table, seen, cands),
            Some(row) => {
                if seen.contains(row.0) {
                    (in_table, seen, cands)
                } else {
                    (
                        in_table,
                        seen.push(row.0),
                        cands.push((row.0, row.1, row.2, cands.len() as int)),
                    )
                }
            },
        }
    }
}

/// The candidates collected after folding all lines.
pub open spec fn table_fold(
    in_table: bool,
    seen: Seq<Seq<char>>,
    cands: Seq<(Seq<char>, Seq<char>, Option<int>, int)>,
    lines: Seq<Seq<char>>,
) -> Seq<(Seq<char>, Seq<char>, Option<int>, int)>
    decreases lines.len(),
{
    if lines.len() == 0 {
        cands
    } else {
        let st = table_step(in_table, seen, cands, lines[0]);
        table_fold(st.0, st.1, st.2, lines.skip(1))
    }
}

/// All candidate rows of a captured listing, in table order, deduplicated
/// by selector, capped at 79.
pub open spec fn parsed_rows(output: Seq<char>) -> Seq<(Seq<char>, Seq<char>, Option<int>, int)> {
    table_fold(
        false,
        seq!["bestvideo+bestaudio/best"@],
        Seq::empty(),
        crate::text::lines_of(output),
    )
}

/// The ranking order: smaller parsed sizes first, sized rows before
/// unsized ones, ties in original table order.
pub open spec fn cand_le(
    a: (Seq<char>, Seq<char>, Option<int>, int),
    b: (Seq<char>, Seq<char>, Option<int>, int),
) -> bool {
    match (a.2, b.2) {
        (Some(x), Some(y)) => x < y || (x == y && a.3 <= b.3),
        (Some(x), None) => true,
        (None, Some(y)) => false,
        (None, None) => a.3 <= b.3,
    }
}

/// `x` inserted into a ranked sequence, after every row ranked at or
/// before it.
pub open spec fn insert_sorted(
    x: (Seq<char>, Seq<char>, Option<int>, int),
    s: Seq<(Seq<char>, Seq<char>, Option<int>, int)>,
) -> Seq<(Seq<char>, Seq<char>, Option<int>, int)>
    decreases s.len(),
{
    if s.len() == 0 {
        seq![x]
    } else if cand_le(s[0], x) {
        seq![s[0]] + insert_sorted(x, s.skip(1))
    } else {
        seq![x] + s
    }
}

/// The ranked permutation of the candidate rows: each row inserted in
/// table order, which keeps ties stable.
pub open spec fn sort_cands(s: Seq<(Seq<char>, Seq<char>, Option<int>, int)>) -> Seq<
    (Seq<char>, Seq<char>, Option<int>, int),
>
    decreases s.len(),
{
    if s.len() == 0 {
        Seq::empty()
    } else {
        insert_sorted(s.last(), sort_cands(s.drop_last()))
    }
}

/// The ranking view of one parsed candidate.
pub open spec fn cand_view(c: QualityCandidate) -> (Seq<char>, Seq<char>, Option<int>, int) {
    (
        c.choice.selector@,
        c.choice.label@,
        match c.size_bytes {
            Some(v) => Some(v as int),
            None => None,
        },
        c.original_index as int,
    )
}

/// The ranking views of a candidate sequence.
pub open spec fn cands_views(v: Seq<QualityCandidate>) -> Seq<
    (Seq<char>, Seq<char>, Option<int>, int),
> {
    Seq::new(v.len(), |i: int| cand_view(v[i]))
}

/// Runtime comparison mirroring [`cand_le`].
fn cand_le_exec(a: &QualityCandidate, b: &QualityCandidate) -> (r: bool)
    ensures
        r == cand_le(cand_view(*a), cand_view(*b)),
{
    match (a.size_bytes, b.size_bytes) {
        (Some(x), Some(y)) => x < y || (x == y && a.original_index <= b.original_index),
        (Some(_), None) => true,
        (None, Some(_)) => false,
        (None, None) => a.original_index <= b.original_index,
    }
}

/// Rank two candidate rows: by parsed size ascending, unsized rows last,
/// ties by original table position.
pub fn compare_quality_candidates(left: &QualityCandidate, right: &QualityCandidate) -> (r:
    core::cmp::Ordering)
    ensures
        (r == core::cmp::Ordering::Less) == (cand_le(cand_view(*left), cand_view(*right))
            && !cand_le(cand_view(*right), cand_view(*left))),
        (r == core::cmp::Ordering::Equal) == (cand_le(cand_view(*left), cand_view(*right))
            && cand_le(cand_view(*right), cand_view(*left))),
        (r == core::cmp::Ordering::Greater) == !cand_le(cand_view(*left), cand_view(*right)),
{
    let le_lr = cand_le_exec(left, right);
    let le_rl = cand_le_exec(right, left);
    if le_lr && le_rl {
        core::cmp::Ordering::Equal
    } else if le_lr {
        core::cmp::Ordering::Less
    } else {
        core::cmp::Ordering::Greater
    }
}

proof fn lemma_insert_at(
    x: (Seq<char>, Seq<char>, Option<int>, int),
    s: Seq<(Seq<char>, Seq<char>, Option<int>, int)>,
    p: int,
)
    requires
        0 <= p <= s.len(),
        forall|j: int| 0 <= j < p ==> cand_le(#[trigger] s[j], x),
        p == s.len() || !cand_le(s[p], x),
    ensures
        insert_sorted(x, s) == s.take(p) + seq![x] + s.skip(p),
    decreases s.len(),
{
    if s.len() == 0 {
        assert(insert_sorted(x, s) =~= s.take(p) + seq![x] + s.skip(p));
    } else if p == 0 {
        assert(s.skip(0) =~= s);
        assert(insert_sorted(x, s) =~= s.take(p) + seq![x] + s.skip(p));
    } else {
        assert(cand_le(s[0], x));
        let rest = s.skip(1);
        assert(forall|j: int| 0 <= j < rest.len() ==> #[trigger] rest[j] == s[j + 1]);
        if p < s.len() {
            assert(rest[p - 1] == s[p]);
        }
        lemma_insert_at(x, rest, p - 1);
        assert(rest.take(p - 1) =~= s.subrange(1, p));
        assert(rest.skip(p - 1) =~= s.skip(p));
        assert(seq![s[0]] + (rest.take(p - 1) + seq![x] + rest.skip(p - 1)) =~= s.take(p)
            + seq![x] + s.skip(p));
    }
}

/// Rank the candidates: stable insertion by [`cand_le`].
fn sort_quality_candidates(input: Vec<QualityCandidate>) -> (r: Vec<QualityCandidate>)
    ensures
        cands_views(r@) == sort_cands(cands_views(input@)),
{
    let ghost orig = cands_views(input@);
    let mut rest = input;
    let mut out: Vec<QualityCandidate> = Vec::new();
    proof {
        assert(cands_views(out@) =~= Seq::<(Seq<char>, Seq<char>, Option<int>, int)>::empty());
        assert(cands_views(rest@) =~= orig);
        assert(orig.skip(0) =~= orig);
        assert(sort_cands(orig.take(0)) =~= Seq::<(Seq<char>, Seq<char>, Option<int>, int)>::empty());
    }
    while rest.len() > 0
        invariant
            rest@.len() <= orig.len(),
            cands_views(rest@) == orig.skip(orig.len() - rest@.len()),
            cands_views(out@) == sort_cands(orig.take(orig.len() - rest@.len())),
        decreases rest@.len(),
    {
        let ghost done = orig.len() - rest@.len();
        let ghost rest_before = rest@;
        let x = rest.remove(0);
        proof {
            assert(cand_view(x) == cands_views(rest_before)[0]);
            assert(cands_views(rest_before)[0] == orig.skip(done)[0]);
            assert(orig.skip(done)[0] == orig[done]);
            assert(rest@ =~= rest_before.skip(1));
            assert forall|j: int| 0 <= j < rest@.len() implies #[trigger] cands_views(rest@)[j]
                == orig.skip(done + 1)[j] by {
                assert(cands_views(rest@)[j] == cand_view(rest@[j]));
                assert(rest@[j] == rest_before.skip(1)[j]);
                assert(rest_before.skip(1)[j] == rest_before[j + 1]);
                assert(cands_views(rest_before)[j + 1] == cand_view(rest_before[j + 1]));
                assert(cands_views(rest_before)[j + 1] == orig.skip(done)[j + 1]);
                assert(orig.skip(done)[j + 1] == orig[done + 1 + j]);
                assert(orig.skip(done + 1)[j] == orig[done + 1 + j]);
            }
            assert(cands_views(rest@).len() == orig.skip(done + 1).len());
            assert(cands_views(rest@) =~= orig.skip(done + 1));
        }
        let mut p: usize = 0;
        loop
            invariant
                p <= out@.len(),
                forall|j: int|
                    0 <= j < p ==> cand_le(#[trigger] cands_views(out@)[j], cand_view(x)),
            ensures
                p <= out@.len(),
                forall|j: int|
                    0 <= j < p ==> cand_le(#[trigger] cands_views(out@)[j], cand_view(x)),
                p == out@.len() || !cand_le(cands_views(out@)[p as int], cand_view(x)),
            decreases out@.len() - p,
        {
            if p == out.len() {
                break ;
            }
            let le = cand_le_exec(&out[p], &x);
            proof {
                assert(cands_views(out@)[p as int] == cand_view(out@[p as int]));
            }
            if !le {
                break ;
            }
            p = p + 1;
        }
        let ghost out_before = cands_views(out@);
        let ghost vec_before = out@;
        let ghost xv = cand_view(x);
        out.insert(p, x);
        proof {
            lemma_insert_at(xv, out_before, p as int);
            assert(out@ == vec_before.insert(p as int, x));
            assert(vec_before.insert(p as int, x) =~= vec_before.take(p as int) + seq![x]
                + vec_before.skip(p as int));
            assert(cands_views(out@) =~= out_before.take(p as int) + seq![xv] + out_before.skip(
                p as int,
            )) by {
                assert(forall|j: int|
                    0 <= j < out@.len() ==> cands_views(out@)[j] == cand_view(out@[j]));
                assert(forall|j: int|
                    0 <= j < vec_before.len() ==> #[trigger] out_before[j] == cand_view(
                        vec_before[j],
                    ));
            }
            assert(orig.take(done + 1).drop_last() =~= orig.take(done));
            assert(orig.take(done + 1).last() == orig[done]);
            assert(cands_views(out@) == sort_cands(orig.take(done + 1)));
        }
    }
    proof {
        assert(orig.take(orig.len() as int) =~= orig);
    }
    out
}

/// Parse a captured capability listing into the ranked list of choices:
/// the synthetic automatic/best choice first, then the accepted rows
/// ranked smallest size first, unsized rows last, ties in table order.
#[verifier::rlimit(100)]
pub fn parse_quality_choices_from_format_list(output: &str) -> (r: Vec<QualityChoice>)
    ensures
        r@.len() == sort_cands(parsed_rows(output@)).len() + 1,
        r@[0].selector@ == "bestvideo+bestaudio/best"@,
        r@[0].label@ == auto_label_spec(),
        forall|i: int|
            0 <= i < sort_cands(parsed_rows(output@)).len() ==> #[trigger] r@[i + 1].selector@
                == sort_cands(parsed_rows(output@))[i].0 && r@[i + 1].label@ == sort_cands(
                parsed_rows(output@),
            )[i].1,
{
    let lines = split_lines(output);
    let ghost lv = lines.deep_view();
    let mut in_table: bool = false;
    let mut seen: Vec<String> = Vec::new();
    seen.push(String::from_str("bestvideo+bestaudio/best"));
    let mut cands: Vec<QualityCandidate> = Vec::new();
    proof {
        assert(seen.deep_view() =~= seq!["bestvideo+bestaudio/best"@]);
        assert(cands_views(cands@) =~= Seq::<(Seq<char>, Seq<char>, Option<int>, int)>::empty());
        assert(lv.skip(0) =~= lv);
    }
    let mut i: usize = 0;
    while i < lines.len()
        invariant
            i <= lines@.len(),
            lines.deep_view() == lv,
            lv == crate::text::lines_of(output@),
            cands@.len() == cands_views(cands@).len(),
            parsed_rows(output@) == table_fold(
                in_table,
                seen.deep_view(),
                cands_views(cands@),
                lv.skip(i as int),
            ),
        decreases lines@.len() - i,
    {
        proof {
            assert(lv.skip(i as int)[0] == lv[i as int]);
            assert(lv[i as int] == lines@[i as int]@);
            assert(lv.skip(i as int).skip(1) =~= lv.skip(i + 1));
        }
        let ghost in_table0 = in_table;
        let ghost seen0 = seen.deep_view();
        let ghost cands0 = cands_views(cands@);
        let ghost line_v = lv[i as int];
        let ghost st = table_step(in_table0, seen0, cands0, line_v);
        let t = trim_of(lines[i].as_str());
        if t.unicode_len() == 0 {
            proof {
                assert(st == (in_table0, seen0, cands0));
            }
        } else if !in_table {
            if str_contains(t, "ID") && str_contains(t, "EXT") {
                in_table = true;
                proof {
                    assert(st == (true, seen0, cands0));
                }
            } else {
                proof {
                    assert(st == (false, seen0, cands0));
                }
            }
        } else if cands.len() >= 79 {
            proof {
                assert(st == (in_table0, seen0, cands0));
            }
        } else if t.get_char(0) == '-' {
            proof {
                assert(trim_spec(line_v)[0] == '-');
                assert(st == (in_table0, seen0, cands0));
            }
        } else {
            proof {
                assert(trim_spec(line_v)[0] != '-');
            }
            let toks = split_tokens(t);
            proof {
                assert(toks.deep_view() == tokens_of(trim_spec(line_v)));
            }
            let mut rejected: bool = false;
            if toks.len() == 0 {
                rejected = true;
            } else {
                proof {
                    assert(toks.deep_view()[0] == toks@[0]@);
                }
                if !is_format_id_token(toks[0].as_str()) {
                    rejected = true;
                } else if str_contains(t, "audio only") || str_contains(t, "images")
                    || str_contains(t, "storyboard") {
                    rejected = true;
                } else if toks.len() < 2 {
                    rejected = true;
                }
            }
            if rejected {
                proof {
                    assert(row_of(trim_spec(line_v)) is None);
                    assert(st == (in_table0, seen0, cands0));
                }
            } else {
                proof {
                    assert(toks.deep_view()[0] == toks@[0]@);
                    assert(toks.deep_view()[1] == toks@[1]@);
                }
                match extract_resolution_token(t) {
                    None => {
                        proof {
                            assert(row_of(trim_spec(line_v)) is None);
                            assert(st == (in_table0, seen0, cands0));
                        }
                    },
                    Some(res) => {
                        let fps = match extract_fps_token(t) {
                            Some(f) => f,
                            None => String::from_str("--"),
                        };
                        let size_str = match extract_size_token(t) {
                            Some(sz) => sz,
                            None => String::from_str("--"),
                        };
                        let size_b = parse_size_bytes(size_str.as_str());
                        let video_only = str_contains(t, "video only");
                        let mut sel = String::from_str(toks[0].as_str());
                        if video_only {
                            sel.append("+bestaudio/best");
                        }
                        let label = format_quality_columns(
                            toks[0].as_str(),
                            toks[1].as_str(),
                            res.as_str(),
                            fps.as_str(),
                            size_str.as_str(),
                            if video_only {
                                "no"
                            } else {
                                "yes"
                            },
                            if video_only {
                                "video"
                            } else {
                                "muxed"
                            },
                        );
                        let ghost row = row_of(trim_spec(line_v));
                        proof {
                            assert(row matches Some(rr) && rr.0 == sel@ && rr.1 == label@
                                && (match size_b {
                                Some(v) => Some(v as int),
                                None => None,
                            }) == rr.2);
                        }
                        if crate::media::list_contains(&seen, sel.as_str()) {
                            proof {
                                assert(st == (in_table0, seen0, cands0));
                            }
                        } else {
                            let idx = cands.len();
                            seen.push(sel.clone());
                            let choice = QualityChoice { selector: sel, label };
                            cands.push(
                                QualityCandidate {
                                    choice,
                                    size_bytes: size_b,
                                    original_index: idx,
                                },
                            );
                            proof {
                                assert(seen.deep_view() =~= seen0.push(row->Some_0.0));
                                assert(cands_views(cands@) =~= cands0.push(
                                    (row->Some_0.0, row->Some_0.1, row->Some_0.2, cands0.len() as int),
                                )) by {
                                    assert(forall|j: int|
                                        0 <= j < cands@.len() ==> #[trigger] cands_views(cands@)[j]
                                            == cand_view(cands@[j]));
                                    assert(forall|j: int|
                                        0 <= j < cands0.len() ==> #[trigger] cands0[j] == cand_view(
                                            cands@[j],
                                        ));
                                };
                                assert(st == (in_table0, seen.deep_view(), cands_views(cands@)));
                            }
                        }
                    },
                }
            }
        }
        proof {
            assert(table_fold(in_table0, seen0, cands0, lv.skip(i as int)) == table_fold(
                in_table,
                seen.deep_view(),
                cands_views(cands@),
                lv.skip(i + 1),
            ));
        }
        i = i + 1;
    }
    proof {
        assert(lv.skip(lv.len() as int) =~= Seq::<Seq<char>>::empty());
        assert(cands_views(cands@) == parsed_rows(output@));
    }
    let sorted = sort_quality_candidates(cands);
    proof {
        assert(cands_views(sorted@) == sort_cands(parsed_rows(output@)));
    }
    choices_with_default(sorted)
}

/// Prepend the synthetic automatic/best choice to the ranked candidates.
fn choices_with_default(sorted: Vec<QualityCandidate>) -> (r: Vec<QualityChoice>)
    ensures
        r@.len() == cands_views(sorted@).len() + 1,
        r@[0].selector@ == "bestvideo+bestaudio/best"@,
        r@[0].label@ == auto_label_spec(),
        forall|i: int|
            0 <= i < cands_views(sorted@).len() ==> #[trigger] r@[i + 1].selector@ == cands_views(
                sorted@,
            )[i].0 && r@[i + 1].label@ == cands_views(sorted@)[i].1,
{
    let ghost sv = cands_views(sorted@);
    let mut r: Vec<QualityChoice> = Vec::new();
    r.push(default_downloader_quality_choice());
    let mut restc = sorted;
    proof {
        assert(sv.skip(0) =~= sv);
    }
    while restc.len() > 0
        invariant
            restc@.len() <= sv.len(),
            cands_views(restc@) == sv.skip(sv.len() - restc@.len()),
            r@.len() == 1 + sv.len() - restc@.len(),
            r@[0].selector@ == "bestvideo+bestaudio/best"@,
            r@[0].label@ == auto_label_spec(),
            forall|k: int|
                0 <= k < sv.len() - restc@.len() ==> #[trigger] r@[k + 1].selector@ == sv[k].0
                    && r@[k + 1].label@ == sv[k].1,
        decreases restc@.len(),
    {
        let ghost done = sv.len() - restc@.len();
        let ghost rest_before = restc@;
        let c = restc.remove(0);
        proof {
            assert(cand_view(c) == cands_views(rest_before)[0]);
            assert(cands_views(rest_before)[0] == sv.skip(done)[0]);
            assert(sv.skip(done)[0] == sv[done]);
            assert(restc@ =~= rest_before.skip(1));
            assert forall|j: int| 0 <= j < restc@.len() implies #[trigger] cands_views(restc@)[j]
                == sv.skip(done + 1)[j] by {
                assert(cands_views(restc@)[j] == cand_view(restc@[j]));
                assert(restc@[j] == rest_before.skip(1)[j]);
                assert(rest_before.skip(1)[j] == rest_before[j + 1]);
                assert(cands_views(rest_before)[j + 1] == cand_view(rest_before[j + 1]));
                assert(cands_views(rest_before)[j + 1] == sv.skip(done)[j + 1]);
                assert(sv.skip(done)[j + 1] == sv[done + 1 + j]);
                assert(sv.skip(done + 1)[j] == sv[done + 1 + j]);
            }
            assert(cands_views(restc@).len() == sv.skip(done + 1).len());
            assert(cands_views(restc@) =~= sv.skip(done + 1));
        }
        let ghost r_old = r@;
        r.push(c.choice);
        proof {
            assert(r@[done + 1].selector@ == sv[done].0);
            assert(r@[done + 1].label@ == sv[done].1);
            assert forall|k: int|
                0 <= k < sv.len() - restc@.len() implies #[trigger] r@[k + 1].selector@ == sv[k].0
                && r@[k + 1].label@ == sv[k].1 by {
                if k < done {
                    assert(r@[k + 1] == r_old[k + 1]);
                }
            }
        }
    }
    r
}

/// The 1-based position shown for the selected choice: `(selected, total)`,
/// `(0, 0)` for an empty list.
pub fn quality_position(total: usize, index: usize) -> (r: (usize, usize))
    ensures
        total == 0 ==> r == (0usize, 0usize),
        total > 0 ==> r.0 == (if index < total {
            index as int
        } else {
            total - 1
        }) + 1 && r.1 == total,
{
    if total == 0 {
        return (0, 0);
    }
    let selected = if index < total {
        index
    } else {
        total - 1
    };
    (selected + 1, total)
}

/// The window of choices shown in a list of `visible` rows: the selected
/// row is centered where possible, the window is clamped to the list, and
/// the third component is the selected row's offset inside the window.
pub fn visible_window(total: usize, index: usize, max_visible: usize) -> (r: (usize, usize, usize))
    requires
        total > 0,
    ensures
        ({
            let mv = if max_visible >= 1 {
                max_visible as int
            } else {
                1
            };
            let selected = if index < total {
                index as int
            } else {
                total - 1
            };
            let half = mv / 2;
            let start0 = if selected >= half {
                selected - half
            } else {
                0
            };
            let end0 = if start0 + mv <= total {
                start0 + mv
            } else {
                total as int
            };
            let start1 = if end0 - start0 < mv {
                if end0 >= mv {
                    end0 - mv
                } else {
                    0
                }
            } else {
                start0
            };
            let end1 = if end0 - start0 < mv {
                if start1 + mv <= total {
                    start1 + mv
                } else {
                    total as int
                }
            } else {
                end0
            };
            r.0 == start1 && r.1 == end1 && r.2 == selected - start1
        }),
{
    let mv = if max_visible >= 1 {
        max_visible
    } else {
        1
    };
    let selected = if index < total {
        index
    } else {
        total - 1
    };
    let half = mv / 2;
    let mut start = if selected >= half {
        selected - half
    } else {
        0
    };
    let mut end = if mv <= total - start {
        start + mv
    } else {
        total
    };
    if end - start < mv {
        start = if end >= mv {
            end - mv
        } else {
            0
        };
        end = if mv <= total - start {
            start + mv
        } else {
            total
        };
    }
    (start, end, selected - start)
}

} // verus!
