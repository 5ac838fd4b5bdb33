//! Character-level text helpers shared by the parsing and path modules:
//! classification of ASCII characters, whitespace tokenization, line
//! splitting, trimming, case-insensitive comparison, and exact decimal
//! rendering and parsing of unsigned integers.
use vstd::prelude::*;

verus! {

/// ASCII whitespace; the table and log output handled here is ASCII.
pub open spec fn is_space_char(c: char) -> bool {
    c == ' ' || c == '\t' || c == '\n' || c == '\r' || c as u32 == 11 || c as u32 == 12
}

/// An ASCII decimal digit.
pub open spec fn is_digit_char(c: char) -> bool {
    48 <= c as u32 <= 57
}

/// Numeric value of an ASCII digit.
pub open spec fn digit_val(c: char) -> int {
    c as u32 - 48
}

/// An ASCII letter or digit.
pub open spec fn is_alnum_char(c: char) -> bool {
    is_digit_char(c) || (65 <= c as u32 <= 90) || (97 <= c as u32 <= 122)
}

/// The code point of `c` with an ASCII upper-case letter folded to lower
/// case.
pub open spec fn lower_code(c: char) -> int {
    if 65 <= c as u32 <= 90 {
        c as u32 + 32
    } else {
        c as u32 as int
    }
}

/// Case-insensitive equality of two character sequences (ASCII folding).
pub open spec fn eq_ignore_case(a: Seq<char>, b: Seq<char>) -> bool {
    a.len() == b.len() && forall|i: int| 0 <= i < a.len() ==> lower_code(a[i]) == lower_code(b[i])
}

/// A non-empty sequence of ASCII digits.
pub open spec fn is_digit_seq(s: Seq<char>) -> bool {
    s.len() > 0 && forall|i: int| 0 <= i < s.len() ==> is_digit_char(#[trigger] s[i])
}

/// The number denoted by a digit sequence.
pub open spec fn dec_value(s: Seq<char>) -> int
    decreases s.len(),
{
    if s.len() == 0 {
        0
    } else {
        dec_value(s.drop_last()) * 10 + digit_val(s.last())
    }
}

/// The ASCII digit with value `d`.
pub open spec fn digit_char(d: int) -> char {
    if d == 0 {
        '0'
    } else if d == 1 {
        '1'
    } else if d == 2 {
        '2'
    } else if d == 3 {
        '3'
    } else if d == 4 {
        '4'
    } else if d == 5 {
        '5'
    } else if d == 6 {
        '6'
    } else if d == 7 {
        '7'
    } else if d == 8 {
        '8'
    } else {
        '9'
    }
}

/// The decimal rendering of `n`, without leading zeros.
pub open spec fn dec_digits(n: int) -> Seq<char>
    decreases n,
{
    if n < 10 {
        seq![digit_char(n)]
    } else {
        dec_digits(n / 10).push(digit_char(n % 10))
    }
}

/// Decimal rendering round-trips through parsing, so distinct numbers have
/// distinct renderings.
pub proof fn lemma_dec_digits_value(n: int)
    requires
        n >= 0,
    ensures
        is_digit_seq(dec_digits(n)),
        dec_value(dec_digits(n)) == n,
    decreases n,
{
    if n < 10 {
        assert(dec_digits(n) =~= seq![digit_char(n)]);
        assert(dec_digits(n).drop_last() =~= Seq::<char>::empty());
        assert(dec_value(Seq::<char>::empty()) == 0);
        assert(dec_digits(n).last() == digit_char(n));
        assert(digit_val(digit_char(n)) == n);
    } else {
        lemma_dec_digits_value(n / 10);
        assert(dec_digits(n).drop_last() =~= dec_digits(n / 10));
        assert(digit_val(digit_char(n % 10)) == n % 10);
    }
}

/// A digit sequence denotes a non-negative number.
pub proof fn lemma_dec_value_nonneg(s: Seq<char>)
    requires
        forall|i: int| 0 <= i < s.len() ==> is_digit_char(#[trigger] s[i]),
    ensures
        dec_value(s) >= 0,
    decreases s.len(),
{
    if s.len() > 0 {
        lemma_dec_value_nonneg(s.drop_last());
    }
}

/// Extending a digit sequence never shrinks its value.
pub proof fn lemma_dec_value_prefix_le(s: Seq<char>, i: int)
    requires
        0 <= i <= s.len(),
        forall|j: int| 0 <= j < s.len() ==> is_digit_char(#[trigger] s[j]),
    ensures
        dec_value(s.take(i)) <= dec_value(s),
    decreases s.len() - i,
{
    if i < s.len() {
        lemma_dec_value_prefix_le(s, i + 1);
        assert(s.take(i + 1).drop_last() =~= s.take(i));
        assert(s.take(i + 1).last() == s[i]);
        assert(forall|j: int| 0 <= j < s.take(i).len() ==> is_digit_char(#[trigger] s.take(i)[j]));
        lemma_dec_value_nonneg(s.take(i));
    } else {
        assert(s.take(i) =~= s);
    }
}

/// Runtime check mirroring [`is_space_char`].
pub fn char_is_space(c: char) -> (r: bool)
    ensures
        r == is_space_char(c),
{
    c == ' ' || c == '\t' || c == '\n' || c == '\r' || c as u32 == 11 || c as u32 == 12
}

/// Runtime check mirroring [`is_digit_char`].
pub fn char_is_digit(c: char) -> (r: bool)
    ensures
        r == is_digit_char(c),
{
    let u = c as u32;
    48 <= u && u <= 57
}

/// Runtime check mirroring [`is_alnum_char`].
pub fn char_is_alnum(c: char) -> (r: bool)
    ensures
        r == is_alnum_char(c),
{
    let u = c as u32;
    (48 <= u && u <= 57) || (65 <= u && u <= 90) || (97 <= u && u <= 122)
}

/// Exact character-sequence equality of two string slices.
pub fn str_eq(a: &str, b: &str) -> (r: bool)
    ensures
        r == (a@ == b@),
{
    let la = a.unicode_len();
    let lb = b.unicode_len();
    if la != lb {
        return false;
    }
    let mut i: usize = 0;
    while i < la
        invariant
            i <= la,
            la == a@.len(),
            la == b@.len(),
            forall|j: int| 0 <= j < i ==> a@[j] == b@[j],
        decreases la - i,
    {
        if a.get_char(i) != b.get_char(i) {
            return false;
        }
        i = i + 1;
    }
    proof {
        assert(a@ =~= b@);
    }
    true
}

/// Case-insensitive equality of two string slices (ASCII folding).
pub fn str_eq_ignore_case(a: &str, b: &str) -> (r: bool)
    ensures
        r == eq_ignore_case(a@, b@),
{
    let la = a.unicode_len();
    let lb = b.unicode_len();
    if la != lb {
        return false;
    }
    let mut i: usize = 0;
    while i < la
        invariant
            i <= la,
            la == a@.len(),
            la == b@.len(),
            forall|j: int| 0 <= j < i ==> lower_code(a@[j]) == lower_code(b@[j]),
        decreases la - i,
    {
        let ca = a.get_char(i) as u32;
        let cb = b.get_char(i) as u32;
        let fa = if 65 <= ca && ca <= 90 {
            ca + 32
        } else {
            ca
        };
        let fb = if 65 <= cb && cb <= 90 {
            cb + 32
        } else {
            cb
        };
        if fa != fb {
            return false;
        }
        i = i + 1;
    }
    true
}

/// Whether `s` contains character `c`.
pub fn str_contains_char(s: &str, c: char) -> (r: bool)
    ensures
        r == s@.contains(c),
{
    let len = s.unicode_len();
    let mut i: usize = 0;
    while i < len
        invariant
            i <= len,
            len == s@.len(),
            forall|j: int| 0 <= j < i ==> s@[j] != c,
        decreases len - i,
    {
        if s.get_char(i) == c {
            assert(s@[i as int] == c);
            return true;
        }
        i = i + 1;
    }
    assert(!s@.contains(c));
    false
}

/// Whether `needle` occurs as a contiguous substring of `hay`.
pub open spec fn contains_seq(hay: Seq<char>, needle: Seq<char>) -> bool {
    exists|i: int|
        0 <= i && i + needle.len() <= hay.len() && #[trigger] hay.subrange(i, i + needle.len())
            == needle
}

/// Whether `needle` occurs in `hay` starting at character position `at`.
pub fn str_matches_at(hay: &str, needle: &str, at: usize) -> (r: bool)
    requires
        at + needle@.len() <= hay@.len(),
    ensures
        r == (hay@.subrange(at as int, at + needle@.len()) == needle@),
{
    let hlen = hay.unicode_len();
    let nl = needle.unicode_len();
    let mut j: usize = 0;
    while j < nl
        invariant
            j <= nl,
            nl == needle@.len(),
            hlen == hay@.len(),
            at + nl <= hlen,
            forall|t: int| 0 <= t < j ==> hay@[at + t] == needle@[t],
        decreases nl - j,
    {
        if hay.get_char(at + j) != needle.get_char(j) {
            proof {
                assert(hay@.subrange(at as int, at + needle@.len())[j as int] == hay@[at + j]);
            }
            return false;
        }
        j = j + 1;
    }
    proof {
        assert(hay@.subrange(at as int, at + needle@.len()) =~= needle@);
    }
    true
}

/// Substring search mirroring [`contains_seq`].
pub fn str_contains(hay: &str, needle: &str) -> (r: bool)
    ensures
        r == contains_seq(hay@, needle@),
{
    let hl = hay.unicode_len();
    let nl = needle.unicode_len();
    if nl > hl {
        proof {
            assert(!contains_seq(hay@, needle@));
        }
        return false;
    }
    if nl == 0 {
        proof {
            assert(hay@.subrange(0, 0 + needle@.len() as int) =~= needle@);
        }
        return true;
    }
    let mut i: usize = 0;
    while i <= hl - nl
        invariant
            1 <= nl <= hl,
            hl == hay@.len(),
            nl == needle@.len(),
            i <= hl - nl + 1,
            forall|k: int| 0 <= k < i ==> #[trigger] hay@.subrange(k, k + needle@.len())
                != needle@,
        decreases hl - i,
    {
        if str_matches_at(hay, needle, i) {
            return true;
        }
        i = i + 1;
    }
    proof {
        assert forall|k: int|
            0 <= k && k + needle@.len() <= hay@.len() implies #[trigger] hay@.subrange(
            k,
            k + needle@.len(),
        ) != needle@ by {
            assert(k < i);
        }
    }
    false
}

/// `s` with leading whitespace removed.
pub open spec fn trim_start_spec(s: Seq<char>) -> Seq<char>
    decreases s.len(),
{
    if s.len() > 0 && is_space_char(s[0]) {
        trim_start_spec(s.skip(1))
    } else {
        s
    }
}

/// `s` with trailing whitespace removed.
pub open spec fn trim_end_spec(s: Seq<char>) -> Seq<char>
    decreases s.len(),
{
    if s.len() > 0 && is_space_char(s.last()) {
        trim_end_spec(s.drop_last())
    } else {
        s
    }
}

/// `s` with leading and trailing whitespace removed.
pub open spec fn trim_spec(s: Seq<char>) -> Seq<char> {
    trim_end_spec(trim_start_spec(s))
}

/// Trim whitespace from both ends, returning a slice of the input.
pub fn trim_of(s: &str) -> (r: &str)
    ensures
        r@ == trim_spec(s@),
{
    let len = s.unicode_len();
    let mut start: usize = 0;
    proof {
        assert(s@.skip(0) =~= s@);
    }
    loop
        invariant
            start <= len,
            len == s@.len(),
            trim_start_spec(s@) == trim_start_spec(s@.skip(start as int)),
        ensures
            start <= len,
            len == s@.len(),
            trim_start_spec(s@) == s@.skip(start as int),
        decreases len - start,
    {
        if start == len {
            proof {
                assert(s@.skip(start as int) =~= Seq::<char>::empty());
            }
            break ;
        }
        let c = s.get_char(start);
        proof {
            assert(s@.skip(start as int)[0] == s@[start as int]);
            assert(s@.skip(start as int).skip(1) =~= s@.skip(start + 1));
        }
        if !char_is_space(c) {
            break ;
        }
        start = start + 1;
    }
    let mut end: usize = len;
    proof {
        assert(s@.skip(start as int).take(len - start) =~= s@.skip(start as int));
    }
    loop
        invariant
            start <= end <= len,
            len == s@.len(),
            trim_start_spec(s@) == s@.skip(start as int),
            trim_end_spec(s@.skip(start as int)) == trim_end_spec(
                s@.skip(start as int).take(end - start),
            ),
        ensures
            start <= end <= len,
            len == s@.len(),
            trim_start_spec(s@) == s@.skip(start as int),
            trim_end_spec(s@.skip(start as int)) == s@.skip(start as int).take(end - start),
        decreases end,
    {
        if end == start {
            proof {
                assert(s@.skip(start as int).take(0) =~= Seq::<char>::empty());
            }
            break ;
        }
        let c = s.get_char(end - 1);
        proof {
            let cur = s@.skip(start as int).take(end - start);
            assert(cur.last() == s@[end - 1]);
            assert(cur.drop_last() =~= s@.skip(start as int).take(end - 1 - start));
        }
        if !char_is_space(c) {
            break ;
        }
        end = end - 1;
    }
    proof {
        assert(s@.subrange(start as int, end as int) =~= s@.skip(start as int).take(end - start));
    }
    s.substring_char(start, end)
}

/// One step of whitespace tokenization: either grow the current token or
/// close it at a whitespace boundary.
pub open spec fn tokens_step(done: Seq<Seq<char>>, cur: Seq<char>, c: char) -> (Seq<Seq<char>>, Seq<
    char,
>) {
    if is_space_char(c) {
        if cur.len() > 0 {
            (done.push(cur), Seq::empty())
        } else {
            (done, cur)
        }
    } else {
        (done, cur.push(c))
    }
}

/// Tokenization fold over the remaining characters.
pub open spec fn tokens_fold(done: Seq<Seq<char>>, cur: Seq<char>, s: Seq<char>) -> Seq<Seq<char>>
    decreases s.len(),
{
    if s.len() == 0 {
        if cur.len() > 0 {
            done.push(cur)
        } else {
            done
        }
    } else {
        let step = tokens_step(done, cur, s[0]);
        tokens_fold(step.0, step.1, s.skip(1))
    }
}

/// The whitespace-separated tokens of `s`, in order.
pub open spec fn tokens_of(s: Seq<char>) -> Seq<Seq<char>> {
    tokens_fold(Seq::empty(), Seq::empty(), s)
}

/// Split a line into its whitespace-separated tokens.
pub fn split_tokens(s: &str) -> (r: Vec<String>)
    ensures
        r.deep_view() == tokens_of(s@),
{
    let len = s.unicode_len();
    let mut done: Vec<String> = Vec::new();
    let mut tok_start: usize = 0;
    let mut i: usize = 0;
    proof {
        assert(done.deep_view() =~= Seq::<Seq<char>>::empty());
        assert(s@.subrange(0, 0) =~= Seq::<char>::empty());
        assert(s@.skip(0) =~= s@);
    }
    while i < len
        invariant
            tok_start <= i <= len,
            len == s@.len(),
            tokens_of(s@) == tokens_fold(
                done.deep_view(),
                s@.subrange(tok_start as int, i as int),
                s@.skip(i as int),
            ),
        decreases len - i,
    {
        let c = s.get_char(i);
        proof {
            assert(s@.skip(i as int)[0] == s@[i as int]);
            assert(s@.skip(i as int).skip(1) =~= s@.skip(i + 1));
        }
        let ghost cur = s@.subrange(tok_start as int, i as int);
        if char_is_space(c) {
            if tok_start < i {
                let tok = s.substring_char(tok_start, i);
                let ghost done0 = done.deep_view();
                done.push(String::from_str(tok));
                proof {
                    assert(done.deep_view() =~= done0.push(cur));
                    assert(s@.subrange(i + 1, i + 1) =~= Seq::<char>::empty());
                }
            } else {
                proof {
                    assert(cur =~= Seq::<char>::empty());
                    assert(s@.subrange(i + 1, i + 1) =~= Seq::<char>::empty());
                }
            }
            tok_start = i + 1;
        } else {
            proof {
                assert(s@.subrange(tok_start as int, i + 1) =~= cur.push(s@[i as int]));
            }
        }
        i = i + 1;
    }
    proof {
        assert(s@.skip(len as int) =~= Seq::<char>::empty());
    }
    if tok_start < len {
        let tok = s.substring_char(tok_start, len);
        let ghost done0 = done.deep_view();
        done.push(String::from_str(tok));
        proof {
            assert(done.deep_view() =~= done0.push(s@.subrange(tok_start as int, len as int)));
        }
    } else {
        proof {
            assert(s@.subrange(tok_start as int, len as int) =~= Seq::<char>::empty());
        }
    }
    done
}

/// One step of line splitting at `\n`, stripping one `\r` before the break.
pub open spec fn lines_step(done: Seq<Seq<char>>, cur: Seq<char>, c: char) -> (Seq<Seq<char>>, Seq<
    char,
>) {
    if c == '\n' {
        if cur.len() > 0 && cur.last() == '\r' {
            (done.push(cur.drop_last()), Seq::empty())
        } else {
            (done.push(cur), Seq::empty())
        }
    } else {
        (done, cur.push(c))
    }
}

/// Line-splitting fold over the remaining characters.
pub open spec fn lines_fold(done: Seq<Seq<char>>, cur: Seq<char>, s: Seq<char>) -> Seq<Seq<char>>
    decreases s.len(),
{
    if s.len() == 0 {
        if cur.len() > 0 {
            done.push(cur)
        } else {
            done
        }
    } else {
        let step = lines_step(done, cur, s[0]);
        lines_fold(step.0, step.1, s.skip(1))
    }
}

/// The lines of `s`, split at `\n` with one preceding `\r` stripped, and no
/// final empty line for a trailing newline.
pub open spec fn lines_of(s: Seq<char>) -> Seq<Seq<char>> {
    lines_fold(Seq::empty(), Seq::empty(), s)
}

/// Split text into lines as [`lines_of`] describes.
pub fn split_lines(s: &str) -> (r: Vec<String>)
    ensures
        r.deep_view() == lines_of(s@),
{
    let len = s.unicode_len();
    let mut done: Vec<String> = Vec::new();
    let mut line_start: usize = 0;
    let mut i: usize = 0;
    proof {
        assert(done.deep_view() =~= Seq::<Seq<char>>::empty());
        assert(s@.subrange(0, 0) =~= Seq::<char>::empty());
        assert(s@.skip(0) =~= s@);
    }
    while i < len
        invariant
            line_start <= i <= len,
            len == s@.len(),
            lines_of(s@) == lines_fold(
                done.deep_view(),
                s@.subrange(line_start as int, i as int),
                s@.skip(i as int),
            ),
        decreases len - i,
    {
        let c = s.get_char(i);
        proof {
            assert(s@.skip(i as int)[0] == s@[i as int]);
            assert(s@.skip(i as int).skip(1) =~= s@.skip(i + 1));
        }
        let ghost cur = s@.subrange(line_start as int, i as int);
        if c == '\n' {
            let end = if line_start < i && s.get_char(i - 1) == '\r' {
                i - 1
            } else {
                i
            };
            proof {
                if line_start < i && s@[i - 1] == '\r' {
                    assert(cur.last() == s@[i - 1]);
                    assert(cur.drop_last() =~= s@.subrange(line_start as int, i - 1));
                } else if cur.len() > 0 {
                    assert(cur.last() == s@[i - 1]);
                }
            }
            let line = s.substring_char(line_start, end);
            let ghost done0 = done.deep_view();
            done.push(String::from_str(line));
            proof {
                assert(done.deep_view() =~= done0.push(s@.subrange(line_start as int, end as int)));
                assert(s@.subrange(i + 1, i + 1) =~= Seq::<char>::empty());
            }
            line_start = i + 1;
        } else {
            proof {
                assert(s@.subrange(line_start as int, i + 1) =~= cur.push(s@[i as int]));
            }
        }
        i = i + 1;
    }
    proof {
        assert(s@.skip(len as int) =~= Seq::<char>::empty());
    }
    if line_start < len {
        let line = s.substring_char(line_start, len);
        let ghost done0 = done.deep_view();
        done.push(String::from_str(line));
        proof {
            assert(done.deep_view() =~= done0.push(s@.subrange(line_start as int, len as int)));
        }
    } else {
        proof {
            assert(s@.subrange(line_start as int, len as int) =~= Seq::<char>::empty());
        }
    }
    done
}

/// The ASCII digit with value `d`, as a string slice.
pub fn digit_str(d: u64) -> (r: &'static str)
    requires
        d < 10,
    ensures
        r@ == seq![digit_char(d as int)],
{
    proof {
        reveal_strlit("0");
        reveal_strlit("1");
        reveal_strlit("2");
        reveal_strlit("3");
        reveal_strlit("4");
        reveal_strlit("5");
        reveal_strlit("6");
        reveal_strlit("7");
        reveal_strlit("8");
        reveal_strlit("9");
    }
    let r = match d {
        0 => "0",
        1 => "1",
        2 => "2",
        3 => "3",
        4 => "4",
        5 => "5",
        6 => "6",
        7 => "7",
        8 => "8",
        _ => "9",
    };
    proof {
        assert(r@ =~= seq![digit_char(d as int)]);
    }
    r
}

/// Render `n` in decimal.
pub fn u64_to_dec(n: u64) -> (r: String)
    ensures
        r@ == dec_digits(n as int),
    decreases n,
{
    if n < 10 {
        String::from_str(digit_str(n))
    } else {
        let mut s = u64_to_dec(n / 10);
        s.append(digit_str(n % 10));
        proof {
            assert(dec_digits(n as int).drop_last() =~= dec_digits(n as int / 10));
            assert(dec_digits(n as int / 10) + seq![digit_char(n as int % 10)] =~= dec_digits(
                n as int,
            ));
        }
        s
    }
}

/// Parse a non-empty all-digit string as a `u64`.
///
/// Returns the denoted value exactly when the string is a digit sequence
/// whose value fits; returns `None` otherwise.
pub fn parse_u64_digits(s: &str) -> (r: Option<u64>)
    ensures
        (is_digit_seq(s@) && dec_value(s@) <= u64::MAX) ==> (r matches Some(v) && v == dec_value(
            s@,
        )),
        !(is_digit_seq(s@) && dec_value(s@) <= u64::MAX) ==> r is None,
{
    let len = s.unicode_len();
    if len == 0 {
        return None;
    }
    let mut acc: u128 = 0;
    let mut i: usize = 0;
    proof {
        assert(s@.take(0) =~= Seq::<char>::empty());
    }
    while i < len
        invariant
            i <= len,
            len == s@.len(),
            acc <= u64::MAX,
            acc == dec_value(s@.take(i as int)),
            forall|j: int| 0 <= j < i ==> is_digit_char(#[trigger] s@[j]),
        decreases len - i,
    {
        let c = s.get_char(i);
        if !char_is_digit(c) {
            return None;
        }
        let d = (c as u32 - 48) as u128;
        let next = acc * 10 + d;
        proof {
            assert(s@.take(i + 1).drop_last() =~= s@.take(i as int));
            assert(s@.take(i + 1).last() == s@[i as int]);
        }
        if next > u64::MAX as u128 {
            proof {
                assert(dec_value(s@.take(i + 1)) > u64::MAX);
                if is_digit_seq(s@) {
                    lemma_dec_value_prefix_le(s@, i + 1);
                }
            }
            return None;
        }
        acc = next;
        i = i + 1;
    }
    proof {
        assert(s@.take(len as int) =~= s@);
    }
    Some(acc as u64)
}

} // verus!
