//! Media file-name and output-path helpers.
//!
//! Paths are handled as plain strings: the component after the last `/` is
//! the file name, and a `.` at position one or later in the file name
//! separates the stem from the extension.  The resolver that avoids
//! overwriting existing files takes the list of occupied paths as an
//! argument; the caller inspects the filesystem.
use vstd::prelude::*;
use crate::text::{
    dec_digits, dec_value, eq_ignore_case, is_digit_seq, lemma_dec_digits_value,
    str_contains_char, str_eq, str_eq_ignore_case, parse_u64_digits, trim_spec, trim_of,
    u64_to_dec,
};

verus! {

/// Index where the file name begins: just after the last `/`.
pub open spec fn name_start_of(p: Seq<char>) -> int
    decreases p.len(),
{
    if p.len() == 0 {
        0
    } else if p.last() == '/' {
        p.len() as int
    } else {
        name_start_of(p.drop_last())
    }
}

/// The directory part of `p`, up to and including the last `/`.
pub open spec fn dir_of(p: Seq<char>) -> Seq<char> {
    p.take(name_start_of(p))
}

/// The file-name part of `p`, after the last `/`.
pub open spec fn file_name_of(p: Seq<char>) -> Seq<char> {
    p.skip(name_start_of(p))
}

/// Index of the extension dot within a file name: the last `.` at position
/// one or later, or `-1` when the name has no extension.
pub open spec fn ext_dot_of(name: Seq<char>) -> int
    decreases name.len(),
{
    if name.len() <= 1 {
        -1
    } else if name.last() == '.' {
        name.len() - 1
    } else {
        ext_dot_of(name.drop_last())
    }
}

/// Whether the file name of `p` carries an extension.
pub open spec fn has_ext(p: Seq<char>) -> bool {
    ext_dot_of(file_name_of(p)) >= 0
}

/// The extension of `p` (text after the extension dot), empty if none.
pub open spec fn ext_of(p: Seq<char>) -> Seq<char> {
    if has_ext(p) {
        file_name_of(p).skip(ext_dot_of(file_name_of(p)) + 1)
    } else {
        Seq::empty()
    }
}

/// The stem of `p`: its file name without the extension, or `output` when
/// the file name is empty.
pub open spec fn stem_of(p: Seq<char>) -> Seq<char> {
    let name = file_name_of(p);
    let stem = if ext_dot_of(name) >= 0 {
        name.take(ext_dot_of(name))
    } else {
        name
    };
    if stem.len() == 0 {
        "output"@
    } else {
        stem
    }
}

/// Name-start scan matching [`name_start_of`].
pub fn find_name_start(p: &str) -> (r: usize)
    ensures
        r == name_start_of(p@),
        r <= p@.len(),
{
    let len = p.unicode_len();
    let mut i: usize = len;
    proof {
        assert(p@.take(len as int) =~= p@);
    }
    loop
        invariant
            i <= len,
            len == p@.len(),
            name_start_of(p@) == name_start_of(p@.take(i as int)),
        ensures
            i <= len,
            len == p@.len(),
            name_start_of(p@) == i,
        decreases i,
    {
        if i == 0 {
            proof {
                assert(p@.take(0) =~= Seq::<char>::empty());
            }
            break ;
        }
        let c = p.get_char(i - 1);
        proof {
            let cur = p@.take(i as int);
            assert(cur.last() == p@[i - 1]);
            assert(cur.drop_last() =~= p@.take(i - 1));
        }
        if c == '/' {
            break ;
        }
        i = i - 1;
    }
    i
}

/// Extension-dot scan matching [`ext_dot_of`]; returns the name length when
/// there is no extension dot.
fn find_ext_dot(name: &str) -> (r: Option<usize>)
    ensures
        r matches Some(d) ==> ext_dot_of(name@) == d && 1 <= d && d < name@.len(),
        r is None ==> ext_dot_of(name@) == -1,
{
    let len = name.unicode_len();
    let mut i: usize = len;
    proof {
        assert(name@.take(len as int) =~= name@);
    }
    loop
        invariant
            i <= len,
            len == name@.len(),
            ext_dot_of(name@) == ext_dot_of(name@.take(i as int)),
        ensures
            i <= len,
            len == name@.len(),
            (i > 1 && ext_dot_of(name@) == i - 1) || (i <= 1 && ext_dot_of(name@) == -1),
        decreases i,
    {
        if i <= 1 {
            proof {
                assert(name@.take(i as int).len() <= 1);
            }
            break ;
        }
        let c = name.get_char(i - 1);
        proof {
            let cur = name@.take(i as int);
            assert(cur.last() == name@[i - 1]);
            assert(cur.drop_last() =~= name@.take(i - 1));
        }
        if c == '.' {
            break ;
        }
        i = i - 1;
    }
    if i > 1 {
        Some(i - 1)
    } else {
        None
    }
}

/// The canonical output container name matching `value` case-insensitively,
/// with `mp4` as the fallback.
pub open spec fn normalize_format_spec(v: Seq<char>) -> Seq<char> {
    if eq_ignore_case(v, "mp4"@) {
        "mp4"@
    } else if eq_ignore_case(v, "mov"@) {
        "mov"@
    } else if eq_ignore_case(v, "mkv"@) {
        "mkv"@
    } else if eq_ignore_case(v, "gif"@) {
        "gif"@
    } else if eq_ignore_case(v, "mp3"@) {
        "mp3"@
    } else if eq_ignore_case(v, "m4a"@) {
        "m4a"@
    } else if eq_ignore_case(v, "wav"@) {
        "wav"@
    } else if eq_ignore_case(v, "flac"@) {
        "flac"@
    } else {
        "mp4"@
    }
}

/// How many output container formats the editor offers.
pub fn output_format_count() -> (r: usize)
    ensures
        r == 8,
{
    8
}

/// The selectable output container formats, in display order.
pub fn output_format_name(index: usize) -> (r: &'static str)
    ensures
        index == 0 ==> r@ == "mp4"@,
        index == 1 ==> r@ == "mov"@,
        index == 2 ==> r@ == "mkv"@,
        index == 3 ==> r@ == "gif"@,
        index == 4 ==> r@ == "mp3"@,
        index == 5 ==> r@ == "m4a"@,
        index == 6 ==> r@ == "wav"@,
        index == 7 ==> r@ == "flac"@,
        index >= 8 ==> r@ == "mp4"@,
{
    match index {
        0 => "mp4",
        1 => "mov",
        2 => "mkv",
        3 => "gif",
        4 => "mp3",
        5 => "m4a",
        6 => "wav",
        7 => "flac",
        _ => "mp4",
    }
}

/// Normalize a user-facing format string to its canonical container name.
pub fn normalize_output_format(value: &str) -> (r: &'static str)
    ensures
        r@ == normalize_format_spec(value@),
{
    if str_eq_ignore_case(value, "mp4") {
        "mp4"
    } else if str_eq_ignore_case(value, "mov") {
        "mov"
    } else if str_eq_ignore_case(value, "mkv") {
        "mkv"
    } else if str_eq_ignore_case(value, "gif") {
        "gif"
    } else if str_eq_ignore_case(value, "mp3") {
        "mp3"
    } else if str_eq_ignore_case(value, "m4a") {
        "m4a"
    } else if str_eq_ignore_case(value, "wav") {
        "wav"
    } else if str_eq_ignore_case(value, "flac") {
        "flac"
    } else {
        "mp4"
    }
}

/// Whether the normalized form of `format` is an audio-only container.
pub open spec fn is_audio_format_spec(v: Seq<char>) -> bool {
    let n = normalize_format_spec(v);
    n == "mp3"@ || n == "m4a"@ || n == "wav"@ || n == "flac"@
}

/// Whether `format` selects an audio-only output container.
pub fn is_audio_output_format(format: &str) -> (r: bool)
    ensures
        r == is_audio_format_spec(format@),
{
    let n = normalize_output_format(format);
    str_eq(n, "mp3") || str_eq(n, "m4a") || str_eq(n, "wav") || str_eq(n, "flac")
}

/// Whether `p` carries one of the recognized video file extensions.
pub open spec fn is_video_file_spec(p: Seq<char>) -> bool {
    has_ext(p) && {
        let e = ext_of(p);
        ||| eq_ignore_case(e, "mp4"@)
        ||| eq_ignore_case(e, "mov"@)
        ||| eq_ignore_case(e, "mkv"@)
        ||| eq_ignore_case(e, "avi"@)
        ||| eq_ignore_case(e, "webm"@)
        ||| eq_ignore_case(e, "m4v"@)
        ||| eq_ignore_case(e, "mpeg"@)
        ||| eq_ignore_case(e, "mpg"@)
        ||| eq_ignore_case(e, "wmv"@)
        ||| eq_ignore_case(e, "flv"@)
    }
}

/// Whether `p` carries one of the recognized audio file extensions.
pub open spec fn is_audio_file_spec(p: Seq<char>) -> bool {
    has_ext(p) && {
        let e = ext_of(p);
        ||| eq_ignore_case(e, "mp3"@)
        ||| eq_ignore_case(e, "m4a"@)
        ||| eq_ignore_case(e, "wav"@)
        ||| eq_ignore_case(e, "flac"@)
        ||| eq_ignore_case(e, "aac"@)
        ||| eq_ignore_case(e, "ogg"@)
        ||| eq_ignore_case(e, "opus"@)
        ||| eq_ignore_case(e, "wma"@)
    }
}

/// Extract the extension of `path` as a slice, if it has one.
fn extension_of(path: &str) -> (r: Option<&str>)
    ensures
        r matches Some(e) ==> has_ext(path@) && e@ == ext_of(path@),
        r is None ==> !has_ext(path@),
{
    let len = path.unicode_len();
    let start = find_name_start(path);
    let name = path.substring_char(start, len);
    proof {
        assert(name@ =~= file_name_of(path@));
    }
    match find_ext_dot(name) {
        Some(d) => {
            let e = name.substring_char(d + 1, name.unicode_len());
            proof {
                assert(e@ =~= ext_of(path@));
            }
            Some(e)
        },
        None => None,
    }
}

/// Whether `path` names a video file the editor can open.
pub fn is_video_file(path: &str) -> (r: bool)
    ensures
        r == is_video_file_spec(path@),
{
    match extension_of(path) {
        Some(e) => str_eq_ignore_case(e, "mp4") || str_eq_ignore_case(e, "mov")
            || str_eq_ignore_case(e, "mkv") || str_eq_ignore_case(e, "avi") || str_eq_ignore_case(
            e,
            "webm",
        ) || str_eq_ignore_case(e, "m4v") || str_eq_ignore_case(e, "mpeg") || str_eq_ignore_case(
            e,
            "mpg",
        ) || str_eq_ignore_case(e, "wmv") || str_eq_ignore_case(e, "flv"),
        None => false,
    }
}

/// Whether `path` names an audio file the editor can open.
pub fn is_audio_file(path: &str) -> (r: bool)
    ensures
        r == is_audio_file_spec(path@),
{
    match extension_of(path) {
        Some(e) => str_eq_ignore_case(e, "mp3") || str_eq_ignore_case(e, "m4a")
            || str_eq_ignore_case(e, "wav") || str_eq_ignore_case(e, "flac")
            || str_eq_ignore_case(e, "aac") || str_eq_ignore_case(e, "ogg") || str_eq_ignore_case(
            e,
            "opus",
        ) || str_eq_ignore_case(e, "wma"),
        None => false,
    }
}

/// Whether `path` names a media file the editor can open at all.
pub fn is_editable_media_file(path: &str) -> (r: bool)
    ensures
        r == (is_video_file_spec(path@) || is_audio_file_spec(path@)),
{
    is_video_file(path) || is_audio_file(path)
}

/// The default output name proposed for an input file: its stem plus its
/// extension (`output` when the name is empty).
pub open spec fn default_output_name_spec(p: Seq<char>) -> Seq<char> {
    if has_ext(p) && ext_of(p).len() > 0 {
        stem_of(p) + "."@ + ext_of(p)
    } else {
        stem_of(p)
    }
}

/// Propose an output file name for the given input path.
pub fn default_output_name(path: &str) -> (r: String)
    ensures
        r@ == default_output_name_spec(path@),
{
    let len = path.unicode_len();
    let start = find_name_start(path);
    let name = path.substring_char(start, len);
    proof {
        assert(name@ =~= file_name_of(path@));
    }
    let nlen = name.unicode_len();
    match find_ext_dot(name) {
        Some(d) => {
            let stem = name.substring_char(0, d);
            proof {
                assert(stem@ =~= file_name_of(path@).take(ext_dot_of(file_name_of(path@))));
            }
            let mut out = if stem.unicode_len() == 0 {
                proof {
                    assert(stem@.len() == 0);
                }
                String::from_str("output")
            } else {
                String::from_str(stem)
            };
            let e = name.substring_char(d + 1, nlen);
            proof {
                assert(e@ =~= ext_of(path@));
            }
            if e.unicode_len() > 0 {
                out.append(".");
                out.append(e);
            }
            out
        },
        None => {
            if nlen == 0 {
                String::from_str("output")
            } else {
                String::from_str(name)
            }
        },
    }
}

/// The canonical container for `path`'s extension, `mp4` when there is none.
pub open spec fn format_for_path_spec(p: Seq<char>) -> Seq<char> {
    if has_ext(p) {
        normalize_format_spec(ext_of(p))
    } else {
        "mp4"@
    }
}

/// Choose the output format matching an input path's extension.
pub fn output_format_for_path(path: &str) -> (r: &'static str)
    ensures
        r@ == format_for_path_spec(path@),
{
    match extension_of(path) {
        Some(e) => normalize_output_format(e),
        None => "mp4",
    }
}

/// The output name with its extension forced to the normalized format:
/// empty (after trimming) names become `output.<fmt>`, names with an
/// extension have it replaced, and extensionless names get one appended.
pub open spec fn enforce_extension_spec(name: Seq<char>, format: Seq<char>) -> Seq<char> {
    let fmt = normalize_format_spec(format);
    if trim_spec(name).len() == 0 {
        "output."@ + fmt
    } else if has_ext(name) {
        dir_of(name) + file_name_of(name).take(ext_dot_of(file_name_of(name))) + "."@ + fmt
    } else {
        name + "."@ + fmt
    }
}

/// Force `output_name` to carry the extension of the chosen format.
pub fn enforce_output_extension(output_name: &str, output_format: &str) -> (r: String)
    ensures
        r@ == enforce_extension_spec(output_name@, output_format@),
{
    let fmt = normalize_output_format(output_format);
    let trimmed = trim_of(output_name);
    if trimmed.unicode_len() == 0 {
        let mut out = String::from_str("output.");
        out.append(fmt);
        return out;
    }
    let len = output_name.unicode_len();
    let start = find_name_start(output_name);
    let name = output_name.substring_char(start, len);
    proof {
        assert(name@ =~= file_name_of(output_name@));
    }
    match find_ext_dot(name) {
        Some(d) => {
            let mut out = String::from_str(output_name.substring_char(0, start));
            proof {
                assert(output_name@.subrange(0, start as int) =~= dir_of(output_name@));
            }
            out.append(name.substring_char(0, d));
            out.append(".");
            out.append(fmt);
            proof {
                assert(name@.subrange(0, d as int) =~= file_name_of(output_name@).take(
                    ext_dot_of(file_name_of(output_name@)),
                ));
            }
            out
        },
        None => {
            let mut out = String::from_str(output_name);
            out.append(".");
            out.append(fmt);
            out
        },
    }
}

/// Where the output file goes: names that are absolute or carry a path
/// separator are used as given; bare names land next to the input file.
pub open spec fn resolve_output_path_spec(input: Seq<char>, name: Seq<char>) -> Seq<char> {
    if name.len() > 0 && name[0] == '/' || name.contains('/') || name.contains('\\') {
        name
    } else {
        dir_of(input) + name
    }
}

/// Resolve an output name against the input file's directory.
pub fn resolve_output_path(input_path: &str, output_name: &str) -> (r: String)
    ensures
        r@ == resolve_output_path_spec(input_path@, output_name@),
{
    let absolute = if output_name.unicode_len() > 0 {
        let c = output_name.get_char(0);
        c == '/'
    } else {
        false
    };
    if absolute || str_contains_char(output_name, '/') || str_contains_char(output_name, '\\') {
        String::from_str(output_name)
    } else {
        let start = find_name_start(input_path);
        let mut out = String::from_str(input_path.substring_char(0, start));
        proof {
            assert(input_path@.subrange(0, start as int) =~= dir_of(input_path@));
        }
        out.append(output_name);
        out
    }
}

/// Index of the `(` that opens a trailing `(N)` suffix, or `-1`.
pub open spec fn last_open_of(s: Seq<char>) -> int
    decreases s.len(),
{
    if s.len() == 0 {
        -1
    } else if s.last() == '(' {
        s.len() - 1
    } else {
        last_open_of(s.drop_last())
    }
}

/// Whether `stem` ends in a well-formed numbered suffix `(N)` with a
/// non-empty base and an `N` that fits in a `u32`.
pub open spec fn has_numbered_suffix(stem: Seq<char>) -> bool {
    let body = stem.drop_last();
    let open = last_open_of(body);
    &&& stem.len() > 0
    &&& stem.last() == ')'
    &&& open >= 1
    &&& is_digit_seq(body.skip(open + 1))
    &&& dec_value(body.skip(open + 1)) <= u32::MAX
}

/// The base stem with a well-formed `(N)` suffix removed, else the stem.
pub open spec fn suffix_base_spec(stem: Seq<char>) -> Seq<char> {
    if has_numbered_suffix(stem) {
        stem.drop_last().take(last_open_of(stem.drop_last()))
    } else {
        stem
    }
}

/// The number of a well-formed `(N)` suffix.
pub open spec fn suffix_number_spec(stem: Seq<char>) -> int {
    dec_value(stem.drop_last().skip(last_open_of(stem.drop_last()) + 1))
}

/// Opening-parenthesis scan matching [`last_open_of`].
fn find_last_open(s: &str) -> (r: Option<usize>)
    ensures
        r matches Some(d) ==> last_open_of(s@) == d && d < s@.len(),
        r is None ==> last_open_of(s@) == -1,
{
    let len = s.unicode_len();
    let mut i: usize = len;
    proof {
        assert(s@.take(len as int) =~= s@);
    }
    loop
        invariant
            i <= len,
            len == s@.len(),
            last_open_of(s@) == last_open_of(s@.take(i as int)),
        ensures
            i <= len,
            len == s@.len(),
            (i > 0 && last_open_of(s@) == i - 1) || (i == 0 && last_open_of(s@) == -1),
        decreases i,
    {
        if i == 0 {
            proof {
                assert(s@.take(0) =~= Seq::<char>::empty());
            }
            break ;
        }
        let c = s.get_char(i - 1);
        proof {
            let cur = s@.take(i as int);
            assert(cur.last() == s@[i - 1]);
            assert(cur.drop_last() =~= s@.take(i - 1));
        }
        if c == '(' {
            break ;
        }
        i = i - 1;
    }
    if i > 0 {
        Some(i - 1)
    } else {
        None
    }
}

/// Split a file stem into its base and a trailing `(N)` number, if the stem
/// ends in such a well-formed suffix.
pub fn split_numbered_suffix(stem: &str) -> (r: (String, Option<u32>))
    ensures
        has_numbered_suffix(stem@) ==> r.0@ == suffix_base_spec(stem@) && (r.1 matches Some(v)
            && v == suffix_number_spec(stem@)),
        !has_numbered_suffix(stem@) ==> r.0@ == stem@ && r.1 is None,
{
    let len = stem.unicode_len();
    if len == 0 {
        return (String::from_str(stem), None);
    }
    if stem.get_char(len - 1) != ')' {
        proof {
            assert(stem@.last() == stem@[len - 1]);
        }
        return (String::from_str(stem), None);
    }
    let body = stem.substring_char(0, len - 1);
    proof {
        assert(body@ =~= stem@.drop_last());
    }
    let Some(open) = find_last_open(body) else {
        return (String::from_str(stem), None);
    };
    if open == 0 {
        return (String::from_str(stem), None);
    }
    let number_text = body.substring_char(open + 1, len - 1);
    proof {
        assert(number_text@ =~= stem@.drop_last().skip(last_open_of(stem@.drop_last()) + 1));
    }
    match parse_u64_digits(number_text) {
        Some(v) if v <= u32::MAX as u64 => {
            let base = body.substring_char(0, open);
            proof {
                assert(base@ =~= stem@.drop_last().take(last_open_of(stem@.drop_last())));
                crate::text::lemma_dec_value_nonneg(number_text@);
            }
            (String::from_str(base), Some(v as u32))
        },
        _ => {
            proof {
                if is_digit_seq(number_text@) {
                    crate::text::lemma_dec_value_nonneg(number_text@);
                }
            }
            (String::from_str(stem), None)
        },
    }
}

/// The candidate path tried at counter `n`: directory, base stem, `(n)`,
/// and the original extension.
pub open spec fn candidate_of(p: Seq<char>, n: int) -> Seq<char> {
    dir_of(p) + suffix_base_spec(stem_of(p)) + "("@ + dec_digits(n) + ")"@ + if has_ext(p)
        && ext_of(p).len() > 0 {
        "."@ + ext_of(p)
    } else {
        Seq::empty()
    }
}

/// The counter the search starts at: one past a parsed `(N)` suffix, or 1.
pub open spec fn start_counter_of(p: Seq<char>) -> int {
    if has_numbered_suffix(stem_of(p)) && suffix_number_spec(stem_of(p)) < u32::MAX {
        suffix_number_spec(stem_of(p)) + 1
    } else {
        1
    }
}

/// Distinct counters give distinct candidate paths.
proof fn lemma_candidate_injective(p: Seq<char>, a: int, b: int)
    requires
        0 <= a,
        0 <= b,
        a != b,
    ensures
        candidate_of(p, a) != candidate_of(p, b),
{
    let pre = dir_of(p) + suffix_base_spec(stem_of(p)) + "("@;
    let post = ")"@ + if has_ext(p) && ext_of(p).len() > 0 {
        "."@ + ext_of(p)
    } else {
        Seq::<char>::empty()
    };
    let ca = candidate_of(p, a);
    let cb = candidate_of(p, b);
    assert(ca =~= pre + dec_digits(a) + post);
    assert(cb =~= pre + dec_digits(b) + post);
    if ca == cb {
        assert(dec_digits(a).len() == dec_digits(b).len()) by {
            assert(ca.len() == pre.len() + dec_digits(a).len() + post.len());
            assert(cb.len() == pre.len() + dec_digits(b).len() + post.len());
        }
        assert(dec_digits(a) =~= dec_digits(b)) by {
            assert forall|i: int| 0 <= i < dec_digits(a).len() implies dec_digits(a)[i]
                == dec_digits(b)[i] by {
                assert(ca[pre.len() + i] == dec_digits(a)[i]);
                assert(cb[pre.len() + i] == dec_digits(b)[i]);
            }
        }
        lemma_dec_digits_value(a);
        lemma_dec_digits_value(b);
        assert(false);
    }
}

/// At most `ex.len()` distinct candidates can all be occupied.
proof fn lemma_candidate_pigeonhole(p: Seq<char>, ex: Seq<Seq<char>>, start: int, n: int)
    requires
        1 <= start <= n,
        forall|m: int| start <= m < n ==> ex.contains(#[trigger] candidate_of(p, m)),
    ensures
        n - start <= ex.len(),
{
    let cands = Seq::new((n - start) as nat, |i: int| candidate_of(p, start + i));
    assert(cands.no_duplicates()) by {
        assert forall|i: int, j: int|
            0 <= i < cands.len() && 0 <= j < cands.len() && i != j implies cands[i] != cands[j] by {
            lemma_candidate_injective(p, start + i, start + j);
        }
    }
    cands.unique_seq_to_set();
    assert(cands.to_set().subset_of(ex.to_set())) by {
        assert forall|x: Seq<char>| cands.to_set().contains(x) implies ex.to_set().contains(x) by {
            let i = choose|i: int| 0 <= i < cands.len() && cands[i] == x;
            assert(ex.contains(candidate_of(p, start + i)));
            let j = choose|j: int| 0 <= j < ex.len() && ex[j] == x;
            assert(ex.to_set().contains(ex[j]));
        }
    }
    ex.lemma_cardinality_of_set();
    vstd::set_lib::lemma_len_subset(cands.to_set(), ex.to_set());
}

/// Whether the string list holds `s`.
pub fn list_contains(list: &Vec<String>, s: &str) -> (r: bool)
    ensures
        r == list.deep_view().contains(s@),
{
    let mut i: usize = 0;
    while i < list.len()
        invariant
            i <= list@.len(),
            forall|j: int| 0 <= j < i ==> list.deep_view()[j] != s@,
        decreases list@.len() - i,
    {
        if str_eq(list[i].as_str(), s) {
            assert(list.deep_view()[i as int] == s@);
            return true;
        }
        i = i + 1;
    }
    proof {
        assert(forall|j: int| 0 <= j < list.deep_view().len() ==> list.deep_view()[j] != s@);
    }
    false
}

/// Find the first output path that is not occupied.
///
/// `existing` lists the paths already present on disk, as the caller read
/// them.  If `path` itself is free it is returned unchanged.  Otherwise the
/// stem's `(N)` suffix (if any) seeds a counter, and `base(n).ext` is tried
/// with increasing `n` until a free path is found: the result is the first
/// free candidate at or after the start counter.
pub fn next_available_output_path(path: &str, existing: &Vec<String>) -> (r: String)
    requires
        existing@.len() < 0x1000_0000,
    ensures
        !existing.deep_view().contains(path@) ==> r@ == path@,
        existing.deep_view().contains(path@) ==> exists|k: int|
            start_counter_of(path@) <= k && #[trigger] candidate_of(path@, k) == r@
                && !existing.deep_view().contains(candidate_of(path@, k)) && forall|m: int|
                start_counter_of(path@) <= m < k ==> existing.deep_view().contains(
                #[trigger] candidate_of(path@, m),
            ),
{
    if !list_contains(existing, path) {
        return String::from_str(path);
    }
    let len = path.unicode_len();
    let name_start = find_name_start(path);
    let name = path.substring_char(name_start, len);
    proof {
        assert(name@ =~= file_name_of(path@));
    }
    let nlen = name.unicode_len();
    let (stem, ext) = match find_ext_dot(name) {
        Some(d) => (name.substring_char(0, d), Some(name.substring_char(d + 1, nlen))),
        None => (name, None),
    };
    let stem = if stem.unicode_len() == 0 {
        proof {
            assert(stem@.len() == 0);
        }
        "output"
    } else {
        stem
    };
    proof {
        assert(stem@ =~= stem_of(path@));
    }
    let (base, number) = split_numbered_suffix(stem);
    let start: u64 = match number {
        Some(v) => {
            if v < u32::MAX {
                v as u64 + 1
            } else {
                1
            }
        },
        None => 1,
    };
    proof {
        assert(start == start_counter_of(path@));
    }
    // The fixed parts around the counter: `dir + base + (` and `) [. ext]`.
    let mut pre = String::from_str(path.substring_char(0, name_start));
    proof {
        assert(path@.subrange(0, name_start as int) =~= dir_of(path@));
    }
    pre.append(base.as_str());
    pre.append("(");
    let mut post = String::from_str(")");
    match ext {
        Some(e) => {
            proof {
                assert(e@ =~= ext_of(path@));
            }
            if e.unicode_len() > 0 {
                post.append(".");
                post.append(e);
            }
        },
        None => {},
    }
    let ghost pre_v = pre@;
    let ghost post_v = post@;
    proof {
        assert(pre_v == dir_of(path@) + suffix_base_spec(stem_of(path@)) + "("@);
        assert(post_v == ")"@ + if has_ext(path@) && ext_of(path@).len() > 0 {
            "."@ + ext_of(path@)
        } else {
            Seq::<char>::empty()
        });
    }
    let mut n: u64 = start;
    loop
        invariant
            existing.deep_view().contains(path@),
            1 <= start <= n,
            n - start <= existing@.len(),
            existing@.len() < 0x1000_0000,
            start == start_counter_of(path@),
            pre@ == pre_v,
            post@ == post_v,
            pre_v == dir_of(path@) + suffix_base_spec(stem_of(path@)) + "("@,
            post_v == ")"@ + if has_ext(path@) && ext_of(path@).len() > 0 {
                "."@ + ext_of(path@)
            } else {
                Seq::<char>::empty()
            },
            existing.deep_view().len() == existing@.len(),
            forall|m: int|
                start <= m < n ==> existing.deep_view().contains(#[trigger] candidate_of(path@, m)),
        decreases existing@.len() + start - n + 1,
    {
        let mut cand = pre.clone();
        let digits = u64_to_dec(n);
        cand.append(digits.as_str());
        cand.append(post.as_str());
        proof {
            assert(cand@ =~= candidate_of(path@, n as int));
        }
        if !list_contains(existing, cand.as_str()) {
            proof {
                assert(candidate_of(path@, n as int) == cand@);
            }
            return cand;
        }
        proof {
            lemma_candidate_pigeonhole(path@, existing.deep_view(), start as int, n + 1);
        }
        n = n + 1;
    }
}

/// The path with any `(N)` suffix stripped from its stem, keeping the
/// directory and extension.
pub open spec fn without_suffix_spec(p: Seq<char>) -> Seq<char> {
    dir_of(p) + suffix_base_spec(stem_of(p)) + if has_ext(p) && ext_of(p).len() > 0 {
        "."@ + ext_of(p)
    } else {
        Seq::empty()
    }
}

/// Strip a numbered `(N)` collision suffix from the path's stem.
pub fn output_path_without_numbered_suffix(path: &str) -> (r: String)
    ensures
        r@ == without_suffix_spec(path@),
{
    let len = path.unicode_len();
    let name_start = find_name_start(path);
    let name = path.substring_char(name_start, len);
    proof {
        assert(name@ =~= file_name_of(path@));
    }
    let nlen = name.unicode_len();
    let (stem, ext) = match find_ext_dot(name) {
        Some(d) => (name.substring_char(0, d), Some(name.substring_char(d + 1, nlen))),
        None => (name, None),
    };
    let stem = if stem.unicode_len() == 0 {
        proof {
            assert(stem@.len() == 0);
        }
        "output"
    } else {
        stem
    };
    proof {
        assert(stem@ =~= stem_of(path@));
    }
    let (base, _) = split_numbered_suffix(stem);
    let mut out = String::from_str(path.substring_char(0, name_start));
    proof {
        assert(path@.subrange(0, name_start as int) =~= dir_of(path@));
    }
    out.append(base.as_str());
    match ext {
        Some(e) => {
            proof {
                assert(e@ =~= ext_of(path@));
            }
            if e.unicode_len() > 0 {
                out.append(".");
                out.append(e);
            }
        },
        None => {},
    }
    proof {
        assert(out@ =~= without_suffix_spec(path@));
    }
    out
}

/// The search for a free path lands on exactly one candidate: repeated
/// calls against an unchanged set of occupied paths return the same path.
pub proof fn lemma_next_path_deterministic(p: Seq<char>, ex: Seq<Seq<char>>, k1: int, k2: int)
    requires
        start_counter_of(p) <= k1,
        !ex.contains(candidate_of(p, k1)),
        forall|m: int| start_counter_of(p) <= m < k1 ==> ex.contains(#[trigger] candidate_of(p, m)),
        start_counter_of(p) <= k2,
        !ex.contains(candidate_of(p, k2)),
        forall|m: int| start_counter_of(p) <= m < k2 ==> ex.contains(#[trigger] candidate_of(p, m)),
    ensures
        k1 == k2,
        candidate_of(p, k1) == candidate_of(p, k2),
{
    if k1 < k2 {
        assert(ex.contains(candidate_of(p, k1)));
    }
    if k2 < k1 {
        assert(ex.contains(candidate_of(p, k2)));
    }
}

/// Once the found path is created on disk, the next search returns a
/// candidate with a strictly larger counter: the numeric suffix increments.
pub proof fn lemma_next_path_after_create(p: Seq<char>, ex: Seq<Seq<char>>, k: int, k2: int)
    requires
        start_counter_of(p) <= k,
        !ex.contains(candidate_of(p, k)),
        forall|m: int| start_counter_of(p) <= m < k ==> ex.contains(#[trigger] candidate_of(p, m)),
        start_counter_of(p) <= k2,
        !ex.push(candidate_of(p, k)).contains(candidate_of(p, k2)),
        forall|m: int|
            start_counter_of(p) <= m < k2 ==> ex.push(candidate_of(p, k)).contains(
                #[trigger] candidate_of(p, m),
            ),
    ensures
        k2 > k,
{
    let ex2 = ex.push(candidate_of(p, k));
    assert(ex2[ex.len() as int] == candidate_of(p, k));
    assert(ex2.contains(candidate_of(p, k)));
    if k2 < k {
        assert(ex.contains(candidate_of(p, k2)));
        let j = choose|j: int| 0 <= j < ex.len() && ex[j] == candidate_of(p, k2);
        assert(ex2[j] == candidate_of(p, k2));
        assert(ex2.contains(candidate_of(p, k2)));
    }
    if k2 == k {
        assert(ex2.contains(candidate_of(p, k2)));
    }
}

/// The best-effort failure summary drawn from diagnostic lines, scanned
/// from the end: the last line that still holds text after trimming and is
/// not the generic `Conversion failed!` wrapper, or a fixed fallback.
pub open spec fn summarize_lines_spec(ls: Seq<Seq<char>>) -> Seq<char>
    decreases ls.len(),
{
    if ls.len() == 0 {
        "unknown ffmpeg error"@
    } else {
        let t = trim_spec(ls.last());
        if t.len() > 0 && t != "Conversion failed!"@ {
            t
        } else {
            summarize_lines_spec(ls.drop_last())
        }
    }
}

/// The failure summary for a whole captured stderr text.
pub open spec fn summarize_spec(s: Seq<char>) -> Seq<char> {
    summarize_lines_spec(crate::text::lines_of(s))
}

/// Derive a one-line human-readable summary from the encoder's stderr.
pub fn summarize_ffmpeg_error(stderr: &str) -> (r: String)
    ensures
        r@ == summarize_spec(stderr@),
{
    let lines = crate::text::split_lines(stderr);
    let ghost full = lines.deep_view();
    let mut i: usize = lines.len();
    proof {
        assert(full.take(i as int) =~= full);
    }
    loop
        invariant
            i <= lines@.len(),
            lines.deep_view() == full,
            full == crate::text::lines_of(stderr@),
            summarize_lines_spec(full) == summarize_lines_spec(full.take(i as int)),
        ensures
            summarize_lines_spec(full) == "unknown ffmpeg error"@,
            full == crate::text::lines_of(stderr@),
        decreases i,
    {
        if i == 0 {
            proof {
                assert(full.take(0) =~= Seq::<Seq<char>>::empty());
            }
            break ;
        }
        let t = trim_of(lines[i - 1].as_str());
        proof {
            let cur = full.take(i as int);
            assert(cur.last() == full[i - 1]);
            assert(full[i - 1] == lines@[i - 1]@);
            assert(cur.drop_last() =~= full.take(i - 1));
        }
        if t.unicode_len() > 0 && !str_eq(t, "Conversion failed!") {
            return String::from_str(t);
        }
        i = i - 1;
    }
    String::from_str("unknown ffmpeg error")
}

/// A character that needs no shell quoting.
pub open spec fn is_safe_quote_char(c: char) -> bool {
    ||| crate::text::is_alnum_char(c)
    ||| c == '-'
    ||| c == '_'
    ||| c == '.'
    ||| c == '/'
    ||| c == ':'
    ||| c == '+'
    ||| c == '@'
    ||| c == '='
    ||| c == '?'
}

/// Each single quote expanded to the `'\''` escape, other characters kept.
pub open spec fn quote_expand(s: Seq<char>) -> Seq<char>
    decreases s.len(),
{
    if s.len() == 0 {
        Seq::empty()
    } else {
        (if s[0] == '\'' {
            seq!['\'', '\\', '\'', '\'']
        } else {
            seq![s[0]]
        }) + quote_expand(s.skip(1))
    }
}

/// How a string is rendered for display inside a shell command line: empty
/// becomes `''`, safe strings stay bare, anything else is single-quoted
/// with embedded quotes escaped.
pub open spec fn shell_quote_spec(s: Seq<char>) -> Seq<char> {
    if s.len() == 0 {
        "''"@
    } else if forall|i: int| 0 <= i < s.len() ==> is_safe_quote_char(#[trigger] s[i]) {
        s
    } else {
        "'"@ + quote_expand(s) + "'"@
    }
}

proof fn lemma_quote_expand_concat(a: Seq<char>, b: Seq<char>)
    ensures
        quote_expand(a + b) == quote_expand(a) + quote_expand(b),
    decreases a.len(),
{
    if a.len() == 0 {
        assert(a + b =~= b);
        assert(quote_expand(a) + quote_expand(b) =~= quote_expand(b));
    } else {
        assert((a + b)[0] == a[0]);
        assert((a + b).skip(1) =~= a.skip(1) + b);
        lemma_quote_expand_concat(a.skip(1), b);
        assert(quote_expand(a + b) =~= quote_expand(a) + quote_expand(b));
    }
}

proof fn lemma_quote_expand_plain(s: Seq<char>)
    requires
        forall|i: int| 0 <= i < s.len() ==> s[i] != '\'',
    ensures
        quote_expand(s) == s,
    decreases s.len(),
{
    if s.len() > 0 {
        assert(forall|i: int| 0 <= i < s.skip(1).len() ==> #[trigger] s.skip(1)[i] != '\'');
        lemma_quote_expand_plain(s.skip(1));
        assert(quote_expand(s) =~= s);
    }
}

/// Render a command-line argument the way the transcript shows it.
pub fn shell_quote(value: &str) -> (r: String)
    ensures
        r@ == shell_quote_spec(value@),
{
    let len = value.unicode_len();
    if len == 0 {
        return String::from_str("''");
    }
    let mut all_safe: bool = true;
    let mut i: usize = 0;
    while i < len
        invariant
            i <= len,
            len == value@.len(),
            all_safe == forall|j: int| 0 <= j < i ==> is_safe_quote_char(#[trigger] value@[j]),
        decreases len - i,
    {
        let c = value.get_char(i);
        let safe = crate::text::char_is_alnum(c) || c == '-' || c == '_' || c == '.' || c == '/'
            || c == ':' || c == '+' || c == '@' || c == '=' || c == '?';
        if !safe {
            all_safe = false;
        }
        i = i + 1;
    }
    if all_safe {
        return String::from_str(value);
    }
    proof {
        reveal_strlit("'\\''");
    }
    let mut out = String::from_str("'");
    let mut seg_start: usize = 0;
    let mut i: usize = 0;
    proof {
        assert(value@.take(0) =~= Seq::<char>::empty());
        assert(out@ =~= "'"@ + quote_expand(value@.take(0)));
    }
    while i < len
        invariant
            seg_start <= i <= len,
            len == value@.len(),
            out@ == "'"@ + quote_expand(value@.take(seg_start as int)),
            forall|j: int| seg_start <= j < i ==> value@[j] != '\'',
        decreases len - i,
    {
        let c = value.get_char(i);
        if c == '\'' {
            let seg = value.substring_char(seg_start, i);
            proof {
                assert(seg@ =~= value@.subrange(seg_start as int, i as int));
            }
            out.append(seg);
            out.append("'\\''");
            proof {
                reveal_strlit("'\\''");
                let pre = value@.take(seg_start as int);
                let mid = value@.subrange(seg_start as int, i as int);
                lemma_quote_expand_plain(mid);
                lemma_quote_expand_concat(pre, mid);
                assert(pre + mid =~= value@.take(i as int));
                lemma_quote_expand_concat(value@.take(i as int), seq![value@[i as int]]);
                assert(value@.take(i as int) + seq![value@[i as int]] =~= value@.take(i + 1));
                assert(quote_expand(seq![value@[i as int]]) =~= seq!['\'', '\\', '\'', '\''])
                    by {
                    assert(seq![value@[i as int]].skip(1) =~= Seq::<char>::empty());
                    assert(quote_expand(Seq::<char>::empty()) =~= Seq::<char>::empty());
                };
                assert("'\\''"@ =~= seq!['\'', '\\', '\'', '\'']);
                assert(out@ =~= "'"@ + quote_expand(value@.take(i + 1)));
            }
            seg_start = i + 1;
        }
        i = i + 1;
    }
    let seg = value.substring_char(seg_start, len);
    proof {
        assert(seg@ =~= value@.subrange(seg_start as int, len as int));
    }
    out.append(seg);
    out.append("'");
    proof {
        let pre = value@.take(seg_start as int);
        let mid = value@.subrange(seg_start as int, len as int);
        lemma_quote_expand_plain(mid);
        lemma_quote_expand_concat(pre, mid);
        assert(pre + mid =~= value@);
        assert(out@ =~= "'"@ + quote_expand(value@) + "'"@);
    }
    out
}

/// A dimension scaled to a percentage, rounded, forced even, and at least 2.
pub open spec fn scaled_dim_spec(dimension: int, percent: int) -> int {
    let rounded = (dimension * percent + 50) / 100;
    let floored = if rounded < 2 {
        2
    } else {
        rounded
    };
    let evened = if floored % 2 == 1 {
        floored - 1
    } else {
        floored
    };
    if evened < 2 {
        2
    } else {
        evened
    }
}

/// Scale one pixel dimension to the given percentage.
pub fn scaled_dimension_for_percent(dimension: u32, percent: u32) -> (r: u32)
    requires
        percent <= 100,
    ensures
        r == scaled_dim_spec(dimension as int, percent as int),
{
    proof {
        assert(dimension as int * percent as int <= 0xFFFF_FFFF * 100) by (nonlinear_arith)
            requires
                dimension <= 0xFFFF_FFFFu32,
                percent <= 100u32,
        ;
        assert(dimension as int * percent as int >= 0) by (nonlinear_arith)
            requires
                dimension >= 0,
                percent >= 0,
        ;
    }
    let scaled: u64 = ((dimension as u64) * (percent as u64) + 50) / 100;
    let mut scaled: u64 = if scaled < 2 {
        2
    } else {
        scaled
    };
    if scaled % 2 == 1 {
        scaled = scaled - 1;
    }
    let scaled = if scaled < 2 {
        2
    } else {
        scaled
    };
    scaled as u32
}

/// Scale a full resolution to the given percentage; 100 keeps it unchanged.
pub fn scaled_resolution_for_percent(width: u32, height: u32, percent: u32) -> (r: (u32, u32))
    requires
        percent <= 100,
    ensures
        percent == 100 ==> r == (width, height),
        percent != 100 ==> r.0 == scaled_dim_spec(width as int, percent as int) && r.1
            == scaled_dim_spec(height as int, percent as int),
{
    if percent == 100 {
        return (width, height);
    }
    (scaled_dimension_for_percent(width, percent), scaled_dimension_for_percent(height, percent))
}

/// Bits per second expressed as whole kilobits per second, rounded, at
/// least 1; `None` for zero or when the value does not fit.
pub open spec fn kbps_spec(bits_per_second: int) -> int {
    let kbps = (bits_per_second + 500) / 1000;
    if kbps < 1 {
        1
    } else {
        kbps
    }
}

/// Convert a probed bit rate to kilobits per second for the bitrate field.
pub fn bitrate_kbps_from_bits_per_second(bits_per_second: u64) -> (r: Option<u32>)
    requires
        bits_per_second <= u64::MAX - 500,
    ensures
        bits_per_second == 0 ==> r is None,
        bits_per_second > 0 && kbps_spec(bits_per_second as int) <= u32::MAX ==> (r matches Some(v)
            && v == kbps_spec(bits_per_second as int)),
        bits_per_second > 0 && kbps_spec(bits_per_second as int) > u32::MAX ==> r is None,
{
    if bits_per_second == 0 {
        return None;
    }
    let kbps: u64 = (bits_per_second + 500) / 1000;
    let kbps = if kbps < 1 {
        1
    } else {
        kbps
    };
    if kbps <= u32::MAX as u64 {
        Some(kbps as u32)
    } else {
        None
    }
}


} // verus!
