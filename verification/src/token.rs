//! The token classifier: whitespace-delimited token ranges, URL and file
//! reference recognition, and canonical "open file" URL construction.

use vstd::prelude::*;

use crate::chars::{
    ascii_lower, ascii_lower_char, char_of_hex, dec_digits, digit_val, hex_to_char,
    is_ascii_digit_char, is_digit_char, is_ws_char, is_whitespace_char, push_char, push_decimal,
};
use vstd::string::StringSliceAdditionalSpecFns;
use vstd::utf8::encode_utf8;

verus! {

/// An ASCII letter.
pub open spec fn is_ascii_alpha_char(c: char) -> bool {
    let u = c as u32;
    (65 <= u && u <= 90) || (97 <= u && u <= 122)
}

/// The first index at or after `i` holding whitespace, or the length of `s`
/// when no such index exists.
pub open spec fn first_ws_at_or_after(s: Seq<char>, i: int) -> int
    decreases s.len() - i,
{
    if i < 0 || i >= s.len() {
        s.len() as int
    } else if is_ws_char(s[i]) {
        i
    } else {
        first_ws_at_or_after(s, i + 1)
    }
}

pub proof fn lemma_first_ws_bounds(s: Seq<char>, i: int)
    requires
        0 <= i <= s.len(),
    ensures
        i <= first_ws_at_or_after(s, i) <= s.len(),
        forall|j: int| i <= j < first_ws_at_or_after(s, i) ==> !is_ws_char(s[j]),
        first_ws_at_or_after(s, i) < s.len() ==> is_ws_char(s[first_ws_at_or_after(s, i)]),
    decreases s.len() - i,
{
    if i < s.len() && !is_ws_char(s[i]) {
        lemma_first_ws_bounds(s, i + 1);
    }
}

/// Pins the first-whitespace index: if everything in `[i, k)` is non-whitespace
/// and `k` is the length of `s` or holds whitespace, the search stops at `k`.
pub proof fn lemma_first_ws_exact(s: Seq<char>, i: int, k: int)
    requires
        0 <= i <= k <= s.len(),
        forall|j: int| i <= j < k ==> !is_ws_char(s[j]),
        k == s.len() || is_ws_char(s[k]),
    ensures
        first_ws_at_or_after(s, i) == k,
    decreases k - i,
{
    if i < k {
        lemma_first_ws_exact(s, i + 1, k);
    }
}

#[via_fn]
proof fn token_ranges_from_decreases(s: Seq<char>, i: int) {
    if 0 <= i && i < s.len() && !is_ws_char(s[i]) {
        lemma_first_ws_bounds(s, i);
        assert(first_ws_at_or_after(s, i) >= i + 1);
    }
}

/// The maximal non-whitespace runs of `s` at or after index `i`, in order,
/// as half-open character ranges.
pub open spec fn token_ranges_from(s: Seq<char>, i: int) -> Seq<(int, int)>
    decreases s.len() - i,
        via token_ranges_from_decreases
{
    if i < 0 || i >= s.len() {
        Seq::empty()
    } else if is_ws_char(s[i]) {
        token_ranges_from(s, i + 1)
    } else {
        seq![(i, first_ws_at_or_after(s, i))] + token_ranges_from(s, first_ws_at_or_after(s, i))
    }
}

/// The maximal non-whitespace runs of `s`, in order.
pub open spec fn token_ranges(s: Seq<char>) -> Seq<(int, int)> {
    token_ranges_from(s, 0)
}

/// The view of a vector of character ranges as a sequence of endpoint pairs.
pub open spec fn ranges_view(rs: Seq<core::ops::Range<usize>>) -> Seq<(int, int)> {
    rs.map_values(|r: core::ops::Range<usize>| (r.start as int, r.end as int))
}

/// Whether character index `j` lies in one of the ranges.
pub open spec fn in_some_range(rs: Seq<(int, int)>, j: int) -> bool {
    exists|k: int| 0 <= k < rs.len() && (#[trigger] rs[k]).0 <= j < rs[k].1
}

/// The law of whitespace splitting: token ranges are in bounds and nonempty,
/// strictly increasing with a gap between consecutive tokens, they hold no
/// whitespace, and every character outside them is whitespace — so the ranges
/// with the whitespace gaps between them reconstruct the whole string.
pub proof fn lemma_token_ranges_properties(s: Seq<char>)
    ensures
        forall|k: int|
            0 <= k < token_ranges(s).len() ==> 0 <= #[trigger] token_ranges(s)[k].0
                < token_ranges(s)[k].1 <= s.len(),
        forall|k: int|
            0 <= k < token_ranges(s).len() - 1 ==> #[trigger] token_ranges(s)[k].1
                < token_ranges(s)[k + 1].0,
        forall|k: int, j: int|
            #![trigger token_ranges(s)[k], is_ws_char(s[j])]
            0 <= k < token_ranges(s).len() && token_ranges(s)[k].0 <= j
                < token_ranges(s)[k].1 ==> !is_ws_char(s[j]),
        forall|j: int|
            0 <= j < s.len() && !in_some_range(token_ranges(s), j) ==> is_ws_char(s[j]),
{
    lemma_token_ranges_from_properties(s, 0);
}

proof fn lemma_token_ranges_from_properties(s: Seq<char>, i: int)
    requires
        0 <= i <= s.len(),
    ensures
        forall|k: int|
            0 <= k < token_ranges_from(s, i).len() ==> i <= #[trigger] token_ranges_from(s, i)[k].0
                < token_ranges_from(s, i)[k].1 <= s.len(),
        forall|k: int|
            0 <= k < token_ranges_from(s, i).len() - 1 ==> #[trigger] token_ranges_from(s, i)[k].1
                < token_ranges_from(s, i)[k + 1].0,
        forall|k: int, j: int|
            #![trigger token_ranges_from(s, i)[k], is_ws_char(s[j])]
            0 <= k < token_ranges_from(s, i).len() && token_ranges_from(s, i)[k].0 <= j
                < token_ranges_from(s, i)[k].1 ==> !is_ws_char(s[j]),
        forall|j: int|
            i <= j < s.len() && !in_some_range(token_ranges_from(s, i), j) ==> is_ws_char(s[j]),
    decreases s.len() - i,
{
    let rs = token_ranges_from(s, i);
    if i >= s.len() {
    } else if is_ws_char(s[i]) {
        lemma_token_ranges_from_properties(s, i + 1);
        assert forall|j: int|
            i <= j < s.len() && !in_some_range(rs, j) implies is_ws_char(s[j]) by {
            if j > i {
                assert(!in_some_range(token_ranges_from(s, i + 1), j));
            }
        }
    } else {
        lemma_first_ws_bounds(s, i);
        let e = first_ws_at_or_after(s, i);
        lemma_token_ranges_from_properties(s, e);
        let tail = token_ranges_from(s, e);
        assert(rs == seq![(i, e)] + tail);
        assert forall|k: int| 0 <= k < rs.len() implies i <= #[trigger] rs[k].0 < rs[k].1
            <= s.len() by {
            if k > 0 {
                assert(rs[k] == tail[k - 1]);
            }
        }
        assert forall|k: int| 0 <= k < rs.len() - 1 implies #[trigger] rs[k].1 < rs[k + 1].0 by {
            if k == 0 {
                // the range after the first token starts past the whitespace at `e`
                assert(tail[0] == rs[1]);
                assert(e < s.len() ==> is_ws_char(s[e]));
                if tail.len() > 0 && tail[0].0 == e {
                    assert(!is_ws_char(s[tail[0].0]));
                }
            } else {
                assert(rs[k] == tail[k - 1] && rs[k + 1] == tail[k]);
            }
        }
        assert forall|k: int, j: int|
            #![trigger rs[k], is_ws_char(s[j])]
            0 <= k < rs.len() && rs[k].0 <= j < rs[k].1 implies !is_ws_char(s[j]) by {
            if k > 0 {
                assert(rs[k] == tail[k - 1]);
            }
        }
        assert forall|j: int| i <= j < s.len() && !in_some_range(rs, j) implies is_ws_char(
            s[j],
        ) by {
            if j < e {
                assert(rs[0].0 <= j < rs[0].1);
            } else {
                assert(!in_some_range(tail, j)) by {
                    if in_some_range(tail, j) {
                        let k = choose|k: int|
                            0 <= k < tail.len() && (#[trigger] tail[k]).0 <= j < tail[k].1;
                        assert(rs[k + 1] == tail[k]);
                    }
                }
            }
        }
    }
}

/// Splits `text` into the character ranges of its maximal non-whitespace
/// runs, in left-to-right order.
pub fn split_whitespace_token_ranges(text: &str) -> (ranges: Vec<core::ops::Range<usize>>)
    ensures
        ranges_view(ranges@) == token_ranges(text@),
{
    let s = Ghost(text@);
    let n = text.unicode_len();
    let mut ranges: Vec<core::ops::Range<usize>> = Vec::new();
    let mut start: Option<usize> = None;
    let mut i: usize = 0;
    while i < n
        invariant
            s@ == text@,
            n == s@.len(),
            i <= n,
            match start {
                Some(b) => b < i && (forall|j: int| b <= j < i ==> !is_ws_char(s@[j]))
                    && !is_ws_char(s@[b as int]) && token_ranges(s@) =~= ranges_view(ranges@)
                    + token_ranges_from(s@, b as int),
                None => token_ranges(s@) =~= ranges_view(ranges@) + token_ranges_from(
                    s@,
                    i as int,
                ),
            },
        decreases n - i,
    {
        let c = text.get_char(i);
        if is_whitespace_char(c) {
            if let Some(b) = start {
                proof {
                    lemma_first_ws_exact(s@, b as int, i as int);
                    assert(token_ranges_from(s@, b as int) =~= seq![(b as int, i as int)]
                        + token_ranges_from(s@, i as int));
                }
                ranges.push(b..i);
                proof {
                    assert(ranges_view(ranges@) =~= ranges_view(ranges@.drop_last()).push(
                        (b as int, i as int),
                    ));
                    assert(token_ranges(s@) =~= ranges_view(ranges@) + token_ranges_from(
                        s@,
                        i as int,
                    ));
                }
                start = None;
            }
            proof {
                assert(token_ranges_from(s@, i as int) =~= token_ranges_from(s@, i + 1));
            }
        } else if start.is_none() {
            start = Some(i);
        }
        i += 1;
    }
    if let Some(b) = start {
        proof {
            lemma_first_ws_exact(s@, b as int, n as int);
            assert(token_ranges_from(s@, b as int) =~= seq![(b as int, n as int)]
                + token_ranges_from(s@, n as int));
            assert(token_ranges_from(s@, n as int) =~= Seq::<(int, int)>::empty());
        }
        ranges.push(b..n);
        proof {
            assert(ranges_view(ranges@) =~= ranges_view(ranges@.drop_last()).push(
                (b as int, n as int),
            ));
        }
    }
    proof {
        assert(token_ranges_from(s@, n as int) =~= Seq::<(int, int)>::empty());
        assert(ranges_view(ranges@) =~= token_ranges(s@));
    }
    ranges
}


/// A Windows drive path start: a letter, a colon, and a slash or backslash.
pub open spec fn spec_is_windows_drive(s: Seq<char>) -> bool {
    s.len() >= 3 && is_ascii_alpha_char(s[0]) && s[1] == ':' && (s[2] == '/' || s[2] == '\\')
}

/// Whether the token begins like a Windows drive path (`C:/` or `C:\`).
pub fn is_windows_drive(path: &str) -> (r: bool)
    ensures
        r == spec_is_windows_drive(path@),
{
    let n = path.unicode_len();
    if n < 3 {
        return false;
    }
    let c0 = path.get_char(0);
    let c1 = path.get_char(1);
    let c2 = path.get_char(2);
    let u0 = c0 as u32;
    ((65 <= u0 && u0 <= 90) || (97 <= u0 && u0 <= 122)) && c1 == ':' && (c2 == '/' || c2 == '\\')
}

/// Whether `s` holds a `://` scheme separator anywhere.
pub open spec fn has_scheme_sep(s: Seq<char>) -> bool {
    exists|i: int|
        0 <= i && i + 2 < s.len() && #[trigger] s[i] == ':' && s[i + 1] == '/' && s[i + 2] == '/'
}

fn contains_scheme_sep(text: &str) -> (r: bool)
    ensures
        r == has_scheme_sep(text@),
{
    let n = text.unicode_len();
    if n < 3 {
        return false;
    }
    let mut i: usize = 0;
    while i + 2 < n
        invariant
            n == text@.len(),
            i + 2 <= n,
            forall|j: int|
                0 <= j < i ==> !(#[trigger] text@[j] == ':' && text@[j + 1] == '/' && text@[j + 2]
                    == '/'),
        decreases n - i,
    {
        if text.get_char(i) == ':' && text.get_char(i + 1) == '/' && text.get_char(i + 2) == '/' {
            return true;
        }
        i += 1;
    }
    false
}

/// Whether `s` holds a slash or backslash anywhere.
pub open spec fn has_any_slash(s: Seq<char>) -> bool {
    exists|i: int| 0 <= i < s.len() && (#[trigger] s[i] == '/' || s[i] == '\\')
}

fn contains_any_slash(text: &str) -> (r: bool)
    ensures
        r == has_any_slash(text@),
{
    let n = text.unicode_len();
    let mut i: usize = 0;
    while i < n
        invariant
            n == text@.len(),
            i <= n,
            forall|j: int| 0 <= j < i ==> !(#[trigger] text@[j] == '/' || text@[j] == '\\'),
        decreases n - i,
    {
        let c = text.get_char(i);
        if c == '/' || c == '\\' {
            return true;
        }
        i += 1;
    }
    false
}

/// The cue that makes a token look like a path on purpose: exactly `.`, `..`
/// or `~`; or, when no `://` occurs, a `./`, `../`, `~/`, `/` or `\` start, a
/// Windows drive start, or a slash anywhere.
pub open spec fn spec_has_path_cue(s: Seq<char>) -> bool {
    s.len() > 0 && (s == seq!['.'] || s == seq!['.', '.'] || s == seq!['~'] || (!has_scheme_sep(s)
        && ((s.len() >= 2 && s[0] == '.' && s[1] == '/') || (s.len() >= 3 && s[0] == '.' && s[1]
            == '.' && s[2] == '/') || (s.len() >= 2 && s[0] == '~' && s[1] == '/') || s[0] == '/'
            || s[0] == '\\' || spec_is_windows_drive(s) || has_any_slash(s))))
}

/// Whether a token carries an explicit path cue; tokens without one are never
/// treated as file references.
pub fn has_explicit_path_cue(path: &str) -> (r: bool)
    ensures
        r == spec_has_path_cue(path@),
{
    let n = path.unicode_len();
    if n == 0 {
        return false;
    }
    let c0 = path.get_char(0);
    if n == 1 && (c0 == '.' || c0 == '~') {
        proof {
            assert(path@ =~= seq![path@[0]]);
        }
        return true;
    }
    if n == 2 && c0 == '.' && path.get_char(1) == '.' {
        proof {
            assert(path@ =~= seq![path@[0], path@[1]]);
        }
        return true;
    }
    proof {
        assert(path@ != seq!['.'] && path@ != seq!['.', '.'] && path@ != seq!['~']) by {
            if path@ == seq!['.'] || path@ == seq!['~'] {
                assert(path@.len() == 1);
            }
            if path@ == seq!['.', '.'] {
                assert(path@.len() == 2);
                assert(path@[0] == '.' && path@[1] == '.');
            }
        }
    }
    if contains_scheme_sep(path) {
        return false;
    }
    if c0 == '/' || c0 == '\\' {
        return true;
    }
    if n >= 2 && (c0 == '.' || c0 == '~') && path.get_char(1) == '/' {
        return true;
    }
    if n >= 3 && c0 == '.' && path.get_char(1) == '.' && path.get_char(2) == '/' {
        return true;
    }
    if is_windows_drive(path) {
        return true;
    }
    contains_any_slash(path)
}

/// The number denoted by a run of decimal digit characters, most significant
/// first.
pub open spec fn digits_val(s: Seq<char>) -> int
    decreases s.len(),
{
    if s.len() == 0 {
        0
    } else {
        digits_val(s.drop_last()) * 10 + digit_val(s.last())
    }
}

/// Every character is an ASCII decimal digit.
pub open spec fn all_digit_chars(s: Seq<char>) -> bool {
    forall|i: int| 0 <= i < s.len() ==> is_digit_char(#[trigger] s[i])
}

pub proof fn lemma_digits_val_nonneg(s: Seq<char>)
    requires
        all_digit_chars(s),
    ensures
        digits_val(s) >= 0,
    decreases s.len(),
{
    if s.len() > 0 {
        assert(all_digit_chars(s.drop_last())) by {
            assert(forall|i: int| 0 <= i < s.len() - 1 ==> #[trigger] s.drop_last()[i] == s[i]);
        }
        lemma_digits_val_nonneg(s.drop_last());
    }
}

proof fn lemma_digits_val_prefix_le(s: Seq<char>, m: int)
    requires
        all_digit_chars(s),
        0 <= m <= s.len(),
    ensures
        digits_val(s.take(m)) <= digits_val(s),
    decreases s.len() - m,
{
    if m < s.len() {
        lemma_digits_val_prefix_le(s, m + 1);
        let p = s.take(m + 1);
        assert(p.drop_last() =~= s.take(m));
        assert(all_digit_chars(s.take(m))) by {
            assert(forall|i: int| 0 <= i < m ==> #[trigger] s.take(m)[i] == s[i]);
        }
        lemma_digits_val_nonneg(s.take(m));
        assert(digits_val(p) == digits_val(s.take(m)) * 10 + digit_val(p.last()));
    } else {
        assert(s.take(m) =~= s);
    }
}

/// The value a token of digits parses to: defined exactly when the token is
/// nonempty, all digits, and its value is positive and fits in 32 bits.
pub open spec fn spec_parse_digits(s: Seq<char>) -> Option<u32> {
    if s.len() > 0 && all_digit_chars(s) && 0 < digits_val(s) && digits_val(s) <= u32::MAX {
        Some(digits_val(s) as u32)
    } else {
        None
    }
}

/// Parses a token of ASCII decimal digits into a positive 32-bit number;
/// empty tokens, non-digit characters, zero and overflow all yield `None`.
pub fn parse_digits(value: &str) -> (r: Option<u32>)
    ensures
        r == spec_parse_digits(value@),
{
    let s = Ghost(value@);
    let n = value.unicode_len();
    if n == 0 {
        return None;
    }
    let mut acc: u64 = 0;
    let mut i: usize = 0;
    while i < n
        invariant
            s@ == value@,
            n == s@.len(),
            i <= n,
            acc <= u32::MAX as u64,
            all_digit_chars(s@.take(i as int)),
            acc as int == digits_val(s@.take(i as int)),
        decreases n - i,
    {
        let c = value.get_char(i);
        if !is_ascii_digit_char(c) {
            proof {
                assert(!all_digit_chars(s@));
            }
            return None;
        }
        let d = (c as u32 - 48) as u64;
        let next = acc * 10 + d;
        proof {
            assert(s@.take(i + 1).drop_last() =~= s@.take(i as int));
            assert(s@.take(i + 1).last() == s@[i as int]);
            assert(all_digit_chars(s@.take(i + 1))) by {
                assert(forall|j: int|
                    0 <= j < i + 1 ==> #[trigger] s@.take(i + 1)[j] == s@[j]);
            }
        }
        if next > u32::MAX as u64 {
            proof {
                if all_digit_chars(s@) {
                    lemma_digits_val_prefix_le(s@, i + 1);
                }
            }
            return None;
        }
        acc = next;
        i += 1;
    }
    proof {
        assert(s@.take(n as int) =~= s@);
    }
    if acc == 0 {
        None
    } else {
        Some(acc as u32)
    }
}

/// A token whose case-insensitive start is `http://` or `https://`.
pub open spec fn spec_is_url_token(s: Seq<char>) -> bool {
    (s.len() >= 7 && ascii_lower(s[0]) == 'h' && ascii_lower(s[1]) == 't' && ascii_lower(s[2])
        == 't' && ascii_lower(s[3]) == 'p' && s[4] == ':' && s[5] == '/' && s[6] == '/') || (s.len()
        >= 8 && ascii_lower(s[0]) == 'h' && ascii_lower(s[1]) == 't' && ascii_lower(s[2]) == 't'
        && ascii_lower(s[3]) == 'p' && ascii_lower(s[4]) == 's' && s[5] == ':' && s[6] == '/'
        && s[7] == '/')
}

/// Recognizes a token whose scheme is `http` or `https`, matched without case
/// sensitivity; the token comes back unchanged, original case preserved.
pub fn parse_url_token(raw: &str) -> (r: Option<String>)
    ensures
        (r is Some) == spec_is_url_token(raw@),
        r matches Some(u) ==> u@ == raw@,
{
    let n = raw.unicode_len();
    if n < 7 {
        return None;
    }
    let h = ascii_lower_char(raw.get_char(0)) == 'h' && ascii_lower_char(raw.get_char(1)) == 't'
        && ascii_lower_char(raw.get_char(2)) == 't' && ascii_lower_char(raw.get_char(3)) == 'p';
    if !h {
        return None;
    }
    if raw.get_char(4) == ':' && raw.get_char(5) == '/' && raw.get_char(6) == '/' {
        return Some(String::from_str(raw));
    }
    if n >= 8 && ascii_lower_char(raw.get_char(4)) == 's' && raw.get_char(5) == ':'
        && raw.get_char(6) == '/' && raw.get_char(7) == '/' {
        return Some(String::from_str(raw));
    }
    proof {
        if spec_is_url_token(raw@) {
            assert(raw@[4] == ':' || ascii_lower(raw@[4]) == 's');
        }
    }
    None
}

/// An absolute path: `~`, a `~/` start, a leading slash or backslash, or a
/// Windows drive start.
pub open spec fn spec_is_absolute_path(s: Seq<char>) -> bool {
    s.len() > 0 && (s == seq!['~'] || (s.len() >= 2 && s[0] == '~' && s[1] == '/') || s[0] == '/'
        || s[0] == '\\' || spec_is_windows_drive(s))
}

/// Whether a file path is absolute rather than workspace-relative.
pub fn is_absolute_path(path: &str) -> (r: bool)
    ensures
        r == spec_is_absolute_path(path@),
{
    let n = path.unicode_len();
    if n == 0 {
        return false;
    }
    let c0 = path.get_char(0);
    if n == 1 && c0 == '~' {
        proof {
            assert(path@ =~= seq![path@[0]]);
        }
        return true;
    }
    if n >= 2 && c0 == '~' && path.get_char(1) == '/' {
        return true;
    }
    if c0 == '/' || c0 == '\\' {
        return true;
    }
    proof {
        if path@ == seq!['~'] {
            assert(path@.len() == 1);
        }
    }
    is_windows_drive(path)
}


/// A file reference recognized inside inline code: a path with an optional
/// 1-based line and column.
pub struct FileRef {
    pub path: String,
    pub line: Option<u32>,
    pub col: Option<u32>,
}

/// The mathematical view of a [`FileRef`].
pub struct FileRefView {
    pub path: Seq<char>,
    pub line: Option<u32>,
    pub col: Option<u32>,
}

impl View for FileRef {
    type V = FileRefView;

    open spec fn view(&self) -> FileRefView {
        FileRefView { path: self.path@, line: self.line, col: self.col }
    }
}

/// A `#L` anchor starts at index `j`.
pub open spec fn hash_l_at(s: Seq<char>, j: int) -> bool {
    0 <= j && j + 1 < s.len() && s[j] == '#' && s[j + 1] == 'L'
}

/// The largest index at most `j` where a `#L` anchor starts, or -1.
pub open spec fn last_hash_l_from(s: Seq<char>, j: int) -> int
    decreases j + 1,
{
    if j < 0 {
        -1
    } else if hash_l_at(s, j) {
        j
    } else {
        last_hash_l_from(s, j - 1)
    }
}

/// Where the last `#L` anchor of `s` starts, or -1 when there is none.
pub open spec fn last_hash_l(s: Seq<char>) -> int {
    last_hash_l_from(s, s.len() - 2)
}

proof fn lemma_last_hash_l_from(s: Seq<char>, j: int)
    ensures
        last_hash_l_from(s, j) == -1 || (hash_l_at(s, last_hash_l_from(s, j))
            && last_hash_l_from(s, j) <= j),
    decreases j + 1,
{
    if j >= 0 && !hash_l_at(s, j) {
        lemma_last_hash_l_from(s, j - 1);
    }
}

fn find_last_hash_l(text: &str) -> (r: Option<usize>)
    ensures
        match r {
            Some(j) => last_hash_l(text@) == j,
            None => last_hash_l(text@) == -1,
        },
{
    let s = Ghost(text@);
    let n = text.unicode_len();
    if n < 2 {
        return None;
    }
    let mut j: usize = n - 1;
    while j >= 1
        invariant
            s@ == text@,
            n == s@.len(),
            n >= 2,
            j <= n - 1,
            last_hash_l(s@) == last_hash_l_from(s@, j - 1),
        decreases j,
    {
        let p = j - 1;
        if text.get_char(p) == '#' && text.get_char(j) == 'L' {
            return Some(p);
        }
        j = p;
    }
    None
}

/// The smallest index at or after `i` holding `c`, or -1.
pub open spec fn first_char_from(s: Seq<char>, c: char, i: int) -> int
    decreases s.len() - i,
{
    if i < 0 || i >= s.len() {
        -1
    } else if s[i] == c {
        i
    } else {
        first_char_from(s, c, i + 1)
    }
}

fn find_first_char(text: &str, c: char) -> (r: Option<usize>)
    ensures
        match r {
            Some(j) => first_char_from(text@, c, 0) == j,
            None => first_char_from(text@, c, 0) == -1,
        },
{
    let n = text.unicode_len();
    let mut i: usize = 0;
    while i < n
        invariant
            n == text@.len(),
            i <= n,
            first_char_from(text@, c, 0) == first_char_from(text@, c, i as int),
        decreases n - i,
    {
        if text.get_char(i) == c {
            return Some(i);
        }
        i += 1;
    }
    None
}

/// The largest index at most `j` holding `c`, or -1.
pub open spec fn last_char_from(s: Seq<char>, c: char, j: int) -> int
    decreases j + 1,
{
    if j < 0 || j >= s.len() {
        -1
    } else if s[j] == c {
        j
    } else {
        last_char_from(s, c, j - 1)
    }
}

/// The largest index of `s` holding `c`, or -1.
pub open spec fn last_char_in(s: Seq<char>, c: char) -> int {
    last_char_from(s, c, s.len() - 1)
}

proof fn lemma_last_char_from(s: Seq<char>, c: char, j: int)
    ensures
        last_char_from(s, c, j) == -1 || (0 <= last_char_from(s, c, j) < s.len()
            && s[last_char_from(s, c, j)] == c && last_char_from(s, c, j) <= j),
    decreases j + 1,
{
    if 0 <= j && j < s.len() && !(s[j] == c) {
        lemma_last_char_from(s, c, j - 1);
    } else if j >= s.len() {
        lemma_last_char_from(s, c, j - 1);
    }
}

fn find_last_char(text: &str, c: char) -> (r: Option<usize>)
    ensures
        match r {
            Some(j) => last_char_in(text@, c) == j,
            None => last_char_in(text@, c) == -1,
        },
{
    let s = Ghost(text@);
    let n = text.unicode_len();
    let mut j: usize = n;
    while j >= 1
        invariant
            s@ == text@,
            n == s@.len(),
            j <= n,
            last_char_in(s@, c) == last_char_from(s@, c, j - 1),
        decreases j,
    {
        let p = j - 1;
        if text.get_char(p) == c {
            return Some(p);
        }
        j = p;
    }
    None
}

/// The file reference denoted by a token with a trailing position: either a
/// `#L<line>[C<col>]` anchor after a cued path, or one or two trailing
/// colon-separated numbers after a cued path.
pub open spec fn spec_parse_line_col(s: Seq<char>) -> Option<FileRefView> {
    let h = last_hash_l(s);
    if h >= 0 {
        if !spec_has_path_cue(s.subrange(0, h)) {
            None
        } else {
            let rest = s.subrange(h + 2, s.len() as int);
            let ci = first_char_from(rest, 'C', 0);
            let line = if ci >= 0 {
                spec_parse_digits(rest.subrange(0, ci))
            } else {
                spec_parse_digits(rest)
            };
            match line {
                None => None,
                Some(l) => Some(
                    FileRefView {
                        path: s.subrange(0, h),
                        line: Some(l),
                        col: if ci >= 0 {
                            spec_parse_digits(rest.subrange(ci + 1, rest.len() as int))
                        } else {
                            None
                        },
                    },
                ),
            }
        }
    } else {
        let lc = last_char_in(s, ':');
        if lc >= 0 {
            let before = s.subrange(0, lc);
            let last_part = s.subrange(lc + 1, s.len() as int);
            match spec_parse_digits(last_part) {
                None => None,
                Some(last_num) => {
                    let lc2 = last_char_in(before, ':');
                    let line = if lc2 >= 0 {
                        spec_parse_digits(before.subrange(lc2 + 1, before.len() as int))
                    } else {
                        None
                    };
                    match line {
                        Some(l) => {
                            if spec_has_path_cue(before.subrange(0, lc2)) {
                                Some(
                                    FileRefView {
                                        path: before.subrange(0, lc2),
                                        line: Some(l),
                                        col: Some(last_num),
                                    },
                                )
                            } else {
                                None
                            }
                        },
                        None => {
                            if spec_has_path_cue(before) {
                                Some(FileRefView { path: before, line: Some(last_num), col: None })
                            } else {
                                None
                            }
                        },
                    }
                },
            }
        } else {
            None
        }
    }
}

/// Parses the trailing line/column grammar of a token: `path#L10`,
/// `path#L10C4`, `path:10` or `path:10:4`, each requiring an explicit path
/// cue on the path part.
pub fn parse_line_col_suffix(raw: &str) -> (r: Option<FileRef>)
    ensures
        (r is Some) == (spec_parse_line_col(raw@) is Some),
        r matches Some(f) ==> spec_parse_line_col(raw@) == Some(f@),
{
    let n = raw.unicode_len();
    if let Some(h) = find_last_hash_l(raw) {
        proof {
            lemma_last_hash_l_from(raw@, raw@.len() - 2);
        }
        let path_s = raw.substring_char(0, h);
        if !has_explicit_path_cue(path_s) {
            return None;
        }
        let rest = raw.substring_char(h + 2, n);
        let rest_n = rest.unicode_len();
        let ci = find_first_char(rest, 'C');
        proof {
            if first_char_from(rest@, 'C', 0) >= 0 {
                lemma_first_char_from_bounds(rest@, 'C', 0);
            }
        }
        let line = match ci {
            Some(c) => parse_digits(rest.substring_char(0, c)),
            None => parse_digits(rest),
        };
        match line {
            None => None,
            Some(l) => {
                let col = match ci {
                    Some(c) => parse_digits(rest.substring_char(c + 1, rest_n)),
                    None => None,
                };
                Some(FileRef { path: String::from_str(path_s), line: Some(l), col })
            },
        }
    } else {
        match find_last_char(raw, ':') {
            None => None,
            Some(lc) => {
                proof {
                    lemma_last_char_from(raw@, ':', raw@.len() - 1);
                }
                let before = raw.substring_char(0, lc);
                let last_part = raw.substring_char(lc + 1, n);
                match parse_digits(last_part) {
                    None => None,
                    Some(last_num) => {
                        let m = before.unicode_len();
                        let lc2 = find_last_char(before, ':');
                        proof {
                            lemma_last_char_from(before@, ':', before@.len() - 1);
                        }
                        let line = match lc2 {
                            Some(c2) => parse_digits(before.substring_char(c2 + 1, m)),
                            None => None,
                        };
                        match line {
                            Some(l) => {
                                let c2 = lc2.unwrap();
                                let path_s = before.substring_char(0, c2);
                                if !has_explicit_path_cue(path_s) {
                                    return None;
                                }
                                Some(
                                    FileRef {
                                        path: String::from_str(path_s),
                                        line: Some(l),
                                        col: Some(last_num),
                                    },
                                )
                            },
                            None => {
                                if !has_explicit_path_cue(before) {
                                    return None;
                                }
                                Some(
                                    FileRef {
                                        path: String::from_str(before),
                                        line: Some(last_num),
                                        col: None,
                                    },
                                )
                            },
                        }
                    },
                }
            },
        }
    }
}

proof fn lemma_first_char_from_bounds(s: Seq<char>, c: char, i: int)
    requires
        0 <= i,
    ensures
        first_char_from(s, c, i) == -1 || (i <= first_char_from(s, c, i) < s.len()
            && s[first_char_from(s, c, i)] == c),
    decreases s.len() - i,
{
    if i < s.len() && !(s[i] == c) {
        lemma_first_char_from_bounds(s, c, i + 1);
    }
}

/// The file reference a whole token denotes: tokens with a `://` are never
/// file references; a trailing line/column grammar is tried first; otherwise
/// the token is a bare path, accepted only with an explicit path cue.
pub open spec fn spec_parse_file_ref(s: Seq<char>) -> Option<FileRefView> {
    if s.len() == 0 {
        None
    } else if has_scheme_sep(s) {
        None
    } else if spec_parse_line_col(s) is Some {
        spec_parse_line_col(s)
    } else if spec_has_path_cue(s) {
        Some(FileRefView { path: s, line: None, col: None })
    } else {
        None
    }
}

/// Recognizes a token as a file reference with an optional trailing line and
/// column.
pub fn parse_file_ref_token(raw: &str) -> (r: Option<FileRef>)
    ensures
        (r is Some) == (spec_parse_file_ref(raw@) is Some),
        r matches Some(f) ==> spec_parse_file_ref(raw@) == Some(f@),
{
    if raw.unicode_len() == 0 {
        return None;
    }
    if contains_scheme_sep(raw) {
        return None;
    }
    if let Some(file) = parse_line_col_suffix(raw) {
        return Some(file);
    }
    if !has_explicit_path_cue(raw) {
        return None;
    }
    Some(FileRef { path: String::from_str(raw), line: None, col: None })
}


/// A byte left unescaped by URI-component encoding: ASCII alphanumerics and
/// `-`, `_`, `.`, `~`.
pub open spec fn is_unreserved_byte(b: u8) -> bool {
    (48 <= b && b <= 57) || (65 <= b && b <= 90) || (97 <= b && b <= 122) || b == 45 || b == 95
        || b == 46 || b == 126
}

/// One byte's encoding: itself when unreserved, else a `%` escape with two
/// uppercase hexadecimal digits.
pub open spec fn encode_uri_byte(b: u8) -> Seq<char> {
    if is_unreserved_byte(b) {
        seq![b as char]
    } else {
        seq!['%', char_of_hex(b as int / 16), char_of_hex(b as int % 16)]
    }
}

/// The byte-wise URI-component encoding of a byte string; multi-byte
/// characters come out as one escape per byte.
pub open spec fn encode_uri_bytes(bs: Seq<u8>) -> Seq<char>
    decreases bs.len(),
{
    if bs.len() == 0 {
        Seq::empty()
    } else {
        encode_uri_bytes(bs.drop_last()) + encode_uri_byte(bs.last())
    }
}

/// Percent-encodes every byte of `value` except ASCII alphanumerics and
/// `-`, `_`, `.`, `~`, using uppercase two-digit escapes, one escape per byte.
pub fn encode_uri_component(value: &str) -> (r: String)
    ensures
        r@ == encode_uri_bytes(value.spec_bytes()),
{
    let bytes = value.as_bytes_vec();
    let mut out = String::new();
    let mut i: usize = 0;
    while i < bytes.len()
        invariant
            bytes@ == value.spec_bytes(),
            i <= bytes.len(),
            out@ == encode_uri_bytes(bytes@.take(i as int)),
        decreases bytes.len() - i,
    {
        let b = bytes[i];
        if (48 <= b && b <= 57) || (65 <= b && b <= 90) || (97 <= b && b <= 122) || b == 45
            || b == 95 || b == 46 || b == 126 {
            push_char(&mut out, b as char);
        } else {
            push_char(&mut out, '%');
            push_char(&mut out, hex_to_char(b / 16));
            push_char(&mut out, hex_to_char(b % 16));
        }
        proof {
            assert(bytes@.take(i + 1).drop_last() =~= bytes@.take(i as int));
            assert(bytes@.take(i + 1).last() == bytes@[i as int]);
            assert(out@ =~= encode_uri_bytes(bytes@.take(i + 1)));
        }
        i += 1;
    }
    proof {
        assert(bytes@.take(bytes@.len() as int) =~= bytes@);
    }
    out
}

/// The canonical "open file" URL for a file reference: an absolute path gets
/// `path=`, a relative one needs a worktree and gets `worktreeId=` and
/// `file=`, and the line and column follow in that order when present; every
/// value is URI-component encoded byte-wise.
pub open spec fn spec_open_url(f: FileRefView, worktree: Option<Seq<char>>) -> Option<Seq<char>> {
    let params = if spec_is_absolute_path(f.path) {
        Some("path="@ + encode_uri_bytes(encode_utf8(f.path)))
    } else {
        match worktree {
            None => None,
            Some(w) => Some(
                "worktreeId="@ + encode_uri_bytes(encode_utf8(w)) + "&file="@ + encode_uri_bytes(
                    encode_utf8(f.path),
                ),
            ),
        }
    };
    match params {
        None => None,
        Some(p) => {
            let p1 = match f.line {
                Some(l) => p + "&line="@ + dec_digits(l as nat),
                None => p,
            };
            let p2 = match f.col {
                Some(c) => p1 + "&col="@ + dec_digits(c as nat),
                None => p1,
            };
            Some("ctx://open?"@ + p2)
        },
    }
}

/// The view of an optional borrowed string.
pub open spec fn opt_string_view(w: Option<&String>) -> Option<Seq<char>> {
    match w {
        Some(s) => Some(s@),
        None => None,
    }
}

/// Builds the canonical `ctx://open?` URL for a file reference, or nothing
/// when the path is relative and no worktree is configured.
pub fn build_ctx_open_url(file_ref: &FileRef, worktree_id: Option<&String>) -> (r: Option<String>)
    ensures
        (r is Some) == (spec_open_url(file_ref@, opt_string_view(worktree_id)) is Some),
        r matches Some(u) ==> spec_open_url(file_ref@, opt_string_view(worktree_id)) == Some(u@),
{
    let mut params = String::new();
    if is_absolute_path(file_ref.path.as_str()) {
        params.append("path=");
        let enc = encode_uri_component(file_ref.path.as_str());
        params.append(enc.as_str());
        proof {
            assert(params@ =~= "path="@ + encode_uri_bytes(encode_utf8(file_ref.path@)));
        }
    } else {
        match worktree_id {
            None => {
                return None;
            },
            Some(w) => {
                params.append("worktreeId=");
                let enc_w = encode_uri_component(w.as_str());
                params.append(enc_w.as_str());
                params.append("&file=");
                let enc_p = encode_uri_component(file_ref.path.as_str());
                params.append(enc_p.as_str());
                proof {
                    assert(params@ =~= "worktreeId="@ + encode_uri_bytes(encode_utf8(w@))
                        + "&file="@ + encode_uri_bytes(encode_utf8(file_ref.path@)));
                }
            },
        }
    }
    if let Some(l) = file_ref.line {
        params.append("&line=");
        push_decimal(&mut params, l as u64);
    }
    if let Some(c) = file_ref.col {
        params.append("&col=");
        push_decimal(&mut params, c as u64);
    }
    let mut out = String::from_str("ctx://open?");
    out.append(params.as_str());
    proof {
        let fv = file_ref@;
        let p0 = if spec_is_absolute_path(fv.path) {
            "path="@ + encode_uri_bytes(encode_utf8(fv.path))
        } else {
            "worktreeId="@ + encode_uri_bytes(encode_utf8(opt_string_view(worktree_id)->0))
                + "&file="@ + encode_uri_bytes(encode_utf8(fv.path))
        };
        let p1 = match fv.line {
            Some(l) => p0 + "&line="@ + dec_digits(l as nat),
            None => p0,
        };
        let p2 = match fv.col {
            Some(c) => p1 + "&col="@ + dec_digits(c as nat),
            None => p1,
        };
        assert(params@ =~= p2);
        assert(out@ =~= "ctx://open?"@ + p2);
    }
    Some(out)
}

} // verus!
