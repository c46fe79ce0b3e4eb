//! Renaming support: splitting a file name into its parts and composing
//! the new indexed name.

use vstd::prelude::*;
use vstd::string::StrSliceExecFns;

use crate::config::{lower_ascii, spec_lower};
use crate::strfmt::{fmt_u64, spec_dec};

verus! {

/// A file name taken apart: the base without extension and conversion
/// markers, the folded extension, and whether a conversion marker stood
/// in the name.
#[derive(Debug, Clone, PartialEq, Eq)]
pub struct CleanedFilename {
    /// The base name, without extension.
    pub base_name: String,
    /// The final extension, folded to lower case, without its dot.
    pub extension: String,
    /// Whether the name carried a `.convert` marker.
    pub has_convert: bool,
}

/// Where a name splits from its extension: the position of its LAST dot,
/// or the length when the name has no dot at all.
pub open spec fn spec_last_dot(name: Seq<char>) -> int
    decreases name.len(),
{
    if name.len() == 0 {
        0int
    } else if name.last() == '.' {
        name.len() - 1
    } else {
        let inner = spec_last_dot(name.drop_last());
        if inner == name.len() - 1 {
            name.len() as int
        } else {
            inner
        }
    }
}

/// The base of a split: before the last dot (the whole name without one).
pub open spec fn spec_split_base(name: Seq<char>) -> Seq<char> {
    name.take(spec_last_dot(name))
}

/// The extension of a split, folded to lower case; empty without a dot.
pub open spec fn spec_split_ext(name: Seq<char>) -> Seq<char> {
    if spec_last_dot(name) == name.len() {
        Seq::empty()
    } else {
        spec_lower(name.skip(spec_last_dot(name) + 1))
    }
}

/// The last dot lies within the name.
pub proof fn lemma_last_dot_bounds(name: Seq<char>)
    ensures
        0 <= spec_last_dot(name) <= name.len(),
    decreases name.len(),
{
    if name.len() > 0 && name.last() != '.' {
        lemma_last_dot_bounds(name.drop_last());
    }
}

/// Whether a base ends in a `.convert` marker, compared without case.
pub open spec fn spec_has_convert_suffix(base: Seq<char>) -> bool {
    base.len() >= 8 && spec_lower(base.skip(base.len() - 8)) == ".convert"@
}

/// The base with every trailing `.convert` marker removed, and whether
/// any was removed.
pub open spec fn spec_strip_convert(base: Seq<char>) -> (Seq<char>, bool)
    decreases base.len(),
{
    if spec_has_convert_suffix(base) {
        let (inner, _) = spec_strip_convert(base.take(base.len() - 8));
        (inner, true)
    } else {
        (base, false)
    }
}

/// Whether a character is a hexadecimal digit.
pub open spec fn spec_is_hex(c: char) -> bool {
    (48 <= c as u32 && c as u32 <= 57) || (97 <= c as u32 && c as u32 <= 102) || (65 <= c as u32
        && c as u32 <= 70)
}

/// Whether a character is an ASCII decimal digit.
pub open spec fn spec_is_digit_char(c: char) -> bool {
    48 <= c as u32 && c as u32 <= 57
}

/// Whether a character counts as whitespace here: the ASCII whitespace
/// set (space, tab, and the line and page breaks).
pub open spec fn spec_is_ws(c: char) -> bool {
    c == ' ' || c == '\t' || c == '\n' || c == '\r' || c == '\u{b}' || c == '\u{c}'
}

/// Whether a serial-number identifier stands at `i`: five groups of
/// hexadecimal digits (8-4-4-4-12) joined by dashes, 36 characters.
pub open spec fn spec_uuid_at(s: Seq<char>, i: int) -> bool {
    &&& 0 <= i
    &&& i + 36 <= s.len()
    &&& forall|k: int|
        i <= k < i + 36 ==> (if k - i == 8 || k - i == 13 || k - i == 18 || k - i == 23 {
            #[trigger] s[k] == '-'
        } else {
            spec_is_hex(s[k])
        })
}

/// Whether a bracketed identifier (38 characters) stands at `i`.
pub open spec fn spec_bracket_uuid_at(s: Seq<char>, i: int) -> bool {
    &&& 0 <= i
    &&& i + 38 <= s.len()
    &&& s[i] == '['
    &&& spec_uuid_at(s, i + 1)
    &&& s[i + 37] == ']'
}

/// Whether an underscored identifier (37 characters) stands at `i`.
pub open spec fn spec_underscore_uuid_at(s: Seq<char>, i: int) -> bool {
    &&& 0 <= i
    &&& i + 37 <= s.len()
    &&& s[i] == '_'
    &&& spec_uuid_at(s, i + 1)
}

/// The first bracketed identifier at or after `i`, if any.
pub open spec fn spec_first_bracket(s: Seq<char>, i: int) -> Option<int>
    decreases s.len() - i,
{
    if i + 38 > s.len() {
        None
    } else if spec_bracket_uuid_at(s, i) {
        Some(i)
    } else {
        spec_first_bracket(s, i + 1)
    }
}

/// The first underscored identifier at or after `i`, if any.
pub open spec fn spec_first_underscore(s: Seq<char>, i: int) -> Option<int>
    decreases s.len() - i,
{
    if i + 37 > s.len() {
        None
    } else if spec_underscore_uuid_at(s, i) {
        Some(i)
    } else {
        spec_first_underscore(s, i + 1)
    }
}

/// Matches found at or after zero lie in range.
proof fn lemma_first_bracket_range(s: Seq<char>, i: int)
    requires
        0 <= i,
    ensures
        spec_first_bracket(s, i) matches Some(p) ==> i <= p && p + 38 <= s.len(),
    decreases s.len() - i,
{
    if i + 38 <= s.len() && !spec_bracket_uuid_at(s, i) {
        lemma_first_bracket_range(s, i + 1);
    }
}

/// Matches found at or after zero lie in range.
proof fn lemma_first_underscore_range(s: Seq<char>, i: int)
    requires
        0 <= i,
    ensures
        spec_first_underscore(s, i) matches Some(p) ==> i <= p && p + 37 <= s.len(),
    decreases s.len() - i,
{
    if i + 37 <= s.len() && !spec_underscore_uuid_at(s, i) {
        lemma_first_underscore_range(s, i + 1);
    }
}

/// The text with every bracketed identifier removed, left to right.
pub open spec fn spec_strip_bracket_uuids(s: Seq<char>) -> Seq<char>
    decreases s.len(),
    via spec_strip_bracket_uuids_decreases
{
    match spec_first_bracket(s, 0) {
        None => s,
        Some(p) => s.take(p) + spec_strip_bracket_uuids(s.skip(p + 38)),
    }
}

#[via_fn]
proof fn spec_strip_bracket_uuids_decreases(s: Seq<char>) {
    lemma_first_bracket_range(s, 0);
}

/// The text with every underscored identifier removed, left to right.
pub open spec fn spec_strip_underscore_uuids(s: Seq<char>) -> Seq<char>
    decreases s.len(),
    via spec_strip_underscore_uuids_decreases
{
    match spec_first_underscore(s, 0) {
        None => s,
        Some(p) => s.take(p) + spec_strip_underscore_uuids(s.skip(p + 37)),
    }
}

#[via_fn]
proof fn spec_strip_underscore_uuids_decreases(s: Seq<char>) {
    lemma_first_underscore_range(s, 0);
}

/// How far a leading `[number] ` marker reaches: the position after the
/// bracket and any following whitespace, or zero when none stands there.
pub open spec fn spec_leading_number_end(s: Seq<char>) -> int {
    let close = spec_close_of_leading(s);
    if close > 0 {
        spec_ws_end(s, close + 1)
    } else {
        0int
    }
}

/// The position of the closing bracket of a leading `[digits]`, or zero.
pub open spec fn spec_close_of_leading(s: Seq<char>) -> int {
    if s.len() >= 3 && s[0] == '[' && spec_digit_end(s, 1) > 1 && spec_digit_end(s, 1) < s.len()
        && s[spec_digit_end(s, 1)] == ']' {
        spec_digit_end(s, 1)
    } else {
        0int
    }
}

/// The first position at or after `i` holding no decimal digit.
pub open spec fn spec_digit_end(s: Seq<char>, i: int) -> int
    decreases s.len() - i,
{
    if i >= s.len() {
        s.len() as int
    } else if spec_is_digit_char(s[i]) {
        spec_digit_end(s, i + 1)
    } else {
        i
    }
}

/// The first position at or after `i` holding no whitespace.
pub open spec fn spec_ws_end(s: Seq<char>, i: int) -> int
    decreases s.len() - i,
{
    if i >= s.len() {
        s.len() as int
    } else if spec_is_ws(s[i]) {
        spec_ws_end(s, i + 1)
    } else {
        i
    }
}

/// Every character of the reserved set becomes a space; the rest stay.
pub open spec fn spec_is_illegal(c: char) -> bool {
    c == '<' || c == '>' || c == ':' || c == '"' || c == '/' || c == '\\' || c == '|' || c == '?'
        || c == '*' || c == '[' || c == ']'
}

/// The text with reserved characters replaced by spaces.
pub open spec fn spec_replace_illegal(s: Seq<char>) -> Seq<char> {
    s.map_values(|c: char| if spec_is_illegal(c) {
        ' '
    } else {
        c
    })
}

/// Whitespace runs collapsed to one space each.
pub open spec fn spec_collapse_ws(s: Seq<char>) -> Seq<char>
    decreases s.len(),
{
    if s.len() == 0 {
        Seq::empty()
    } else {
        spec_collapse_ws(s.drop_last()) + (if spec_is_ws(s.last()) {
            if s.len() >= 2 && spec_is_ws(s[s.len() - 2]) {
                Seq::<char>::empty()
            } else {
                seq![' ']
            }
        } else {
            seq![s.last()]
        })
    }
}

/// The text with leading and trailing whitespace removed.
pub open spec fn spec_trim(s: Seq<char>) -> Seq<char> {
    let lo = spec_ws_end(s, 0);
    let hi = spec_trim_hi(s);
    if lo <= hi {
        s.subrange(lo, hi)
    } else {
        Seq::empty()
    }
}

/// The position after the last non-whitespace character.
pub open spec fn spec_trim_hi(s: Seq<char>) -> int
    decreases s.len(),
{
    if s.len() == 0 {
        0int
    } else if spec_is_ws(s.last()) {
        spec_trim_hi(s.drop_last())
    } else {
        s.len() as int
    }
}

/// The cleaned base name: the leading `[number]` marker, every
/// serial-number identifier and every reserved character removed,
/// whitespace collapsed and trimmed — or `video` when nothing is left.
pub open spec fn spec_clean_base(s: Seq<char>) -> Seq<char> {
    let a = s.skip(spec_leading_number_end(s));
    let b = spec_strip_bracket_uuids(a);
    let c = spec_strip_underscore_uuids(b);
    let d = spec_replace_illegal(c);
    let e = spec_trim(spec_collapse_ws(d));
    if e.len() == 0 {
        "video"@
    } else {
        e
    }
}

/// Whether a character is a hexadecimal digit.
fn is_hex(c: char) -> (r: bool)
    ensures
        r == spec_is_hex(c),
{
    let u = c as u32;
    (48 <= u && u <= 57) || (97 <= u && u <= 102) || (65 <= u && u <= 70)
}

/// Whether a character is an ASCII decimal digit.
fn is_digit_c(c: char) -> (r: bool)
    ensures
        r == spec_is_digit_char(c),
{
    let u = c as u32;
    48 <= u && u <= 57
}

/// Whether a character counts as whitespace here.
fn is_ws(c: char) -> (r: bool)
    ensures
        r == spec_is_ws(c),
{
    c == ' ' || c == '\t' || c == '\n' || c == '\r' || c == '\u{b}' || c == '\u{c}'
}

/// Whether a serial-number identifier stands at `i`.
fn uuid_at(s: &str, i: usize) -> (r: bool)
    requires
        i + 36 <= s@.len(),
    ensures
        r == spec_uuid_at(s@, i as int),
{
    let total = s.unicode_len();
    assert(i + 36 <= total);
    let mut k: usize = 0;
    while k < 36
        invariant
            k <= 36,
            total == s@.len(),
            i + 36 <= total,
            forall|m: int|
                i <= m < i + k ==> (if m - i == 8 || m - i == 13 || m - i == 18 || m - i == 23 {
                    #[trigger] s@[m] == '-'
                } else {
                    spec_is_hex(s@[m])
                }),
        decreases 36 - k,
    {
        let c = s.get_char(i + k);
        let ok = if k == 8 || k == 13 || k == 18 || k == 23 {
            c == '-'
        } else {
            is_hex(c)
        };
        if !ok {
            proof {
                assert(!spec_uuid_at(s@, i as int)) by {
                    let m = i + k;
                    assert(!(if m - i == 8 || m - i == 13 || m - i == 18 || m - i == 23 {
                        s@[m as int] == '-'
                    } else {
                        spec_is_hex(s@[m as int])
                    }));
                }
            }
            return false;
        }
        k += 1;
    }
    true
}

/// The first bracketed identifier of the text, if any.
fn find_bracket(s: &str) -> (r: Option<usize>)
    ensures
        match r {
            Some(p) => spec_first_bracket(s@, 0) == Some(p as int) && p + 38 <= s@.len(),
            None => spec_first_bracket(s@, 0) is None,
        },
{
    let n = s.unicode_len();
    if n < 38 {
        return None;
    }
    let mut i: usize = 0;
    while i <= n - 38
        invariant
            38 <= n == s@.len(),
            i <= n - 37,
            spec_first_bracket(s@, 0) == spec_first_bracket(s@, i as int),
        decreases n - i,
    {
        if s.get_char(i) == '[' && s.get_char(i + 37) == ']' && uuid_at(s, i + 1) {
            assert(spec_bracket_uuid_at(s@, i as int));
            return Some(i);
        }
        assert(!spec_bracket_uuid_at(s@, i as int));
        i += 1;
    }
    None
}

/// The first underscored identifier of the text, if any.
fn find_underscore(s: &str) -> (r: Option<usize>)
    ensures
        match r {
            Some(p) => spec_first_underscore(s@, 0) == Some(p as int) && p + 37 <= s@.len(),
            None => spec_first_underscore(s@, 0) is None,
        },
{
    let n = s.unicode_len();
    if n < 37 {
        return None;
    }
    let mut i: usize = 0;
    while i <= n - 37
        invariant
            37 <= n == s@.len(),
            i <= n - 36,
            spec_first_underscore(s@, 0) == spec_first_underscore(s@, i as int),
        decreases n - i,
    {
        if s.get_char(i) == '_' && uuid_at(s, i + 1) {
            assert(spec_underscore_uuid_at(s@, i as int));
            return Some(i);
        }
        assert(!spec_underscore_uuid_at(s@, i as int));
        i += 1;
    }
    None
}

/// Removes every bracketed identifier, left to right.
fn strip_bracket_uuids(s: &str) -> (r: String)
    ensures
        r@ == spec_strip_bracket_uuids(s@),
{
    let mut out = String::new();
    let mut cur: String = s.to_owned();
    proof {
        assert(out@ + spec_strip_bracket_uuids(cur@) =~= spec_strip_bracket_uuids(s@));
    }
    loop
        invariant
            spec_strip_bracket_uuids(s@) == out@ + spec_strip_bracket_uuids(cur@),
        decreases cur@.len(),
    {
        match find_bracket(cur.as_str()) {
            None => {
                out.append(cur.as_str());
                proof {
                    assert(out@ =~= spec_strip_bracket_uuids(s@));
                }
                return out;
            },
            Some(p) => {
                proof {
                    lemma_first_bracket_range(cur@, 0);
                }
                let n = cur.as_str().unicode_len();
                out.append(cur.as_str().substring_char(0, p));
                let rest = cur.as_str().substring_char(p + 38, n).to_owned();
                proof {
                    assert(cur@.take(p as int) =~= cur@.subrange(0, p as int));
                    assert(cur@.skip(p as int + 38) =~= cur@.subrange(p as int + 38, n as int));
                    assert(out@ + spec_strip_bracket_uuids(rest@) =~= spec_strip_bracket_uuids(
                        s@,
                    ));
                }
                cur = rest;
            },
        }
    }
}

/// Removes every underscored identifier, left to right.
fn strip_underscore_uuids(s: &str) -> (r: String)
    ensures
        r@ == spec_strip_underscore_uuids(s@),
{
    let mut out = String::new();
    let mut cur: String = s.to_owned();
    proof {
        assert(out@ + spec_strip_underscore_uuids(cur@) =~= spec_strip_underscore_uuids(s@));
    }
    loop
        invariant
            spec_strip_underscore_uuids(s@) == out@ + spec_strip_underscore_uuids(cur@),
        decreases cur@.len(),
    {
        match find_underscore(cur.as_str()) {
            None => {
                out.append(cur.as_str());
                proof {
                    assert(out@ =~= spec_strip_underscore_uuids(s@));
                }
                return out;
            },
            Some(p) => {
                proof {
                    lemma_first_underscore_range(cur@, 0);
                }
                let n = cur.as_str().unicode_len();
                out.append(cur.as_str().substring_char(0, p));
                let rest = cur.as_str().substring_char(p + 37, n).to_owned();
                proof {
                    assert(cur@.take(p as int) =~= cur@.subrange(0, p as int));
                    assert(cur@.skip(p as int + 37) =~= cur@.subrange(p as int + 37, n as int));
                    assert(out@ + spec_strip_underscore_uuids(rest@)
                        =~= spec_strip_underscore_uuids(s@));
                }
                cur = rest;
            },
        }
    }
}

/// Strips one leading `[number] ` marker with its trailing whitespace.
fn strip_leading_number(s: &str) -> (r: String)
    ensures
        r@ == s@.skip(spec_leading_number_end(s@)),
{
    let n = s.unicode_len();
    let mut close: usize = 0;
    if n >= 3 && s.get_char(0) == '[' {
        let mut d: usize = 1;
        while d < n && is_digit_c(s.get_char(d))
            invariant
                1 <= d <= n,
                n == s@.len(),
                spec_digit_end(s@, 1) == spec_digit_end(s@, d as int),
            decreases n - d,
        {
            d += 1;
        }
        proof {
            if d < n {
                assert(spec_digit_end(s@, d as int) == d);
            } else {
                assert(spec_digit_end(s@, d as int) == n);
            }
        }
        if d > 1 && d < n && s.get_char(d) == ']' {
            close = d;
        }
    }
    assert(close as int == spec_close_of_leading(s@));
    if close == 0 {
        let r = s.to_owned();
        proof {
            assert(r@ =~= s@.skip(0));
        }
        return r;
    }
    let mut e: usize = close + 1;
    while e < n && is_ws(s.get_char(e))
        invariant
            close + 1 <= e <= n,
            n == s@.len(),
            spec_ws_end(s@, close as int + 1) == spec_ws_end(s@, e as int),
        decreases n - e,
    {
        e += 1;
    }
    proof {
        if e < n {
            assert(spec_ws_end(s@, e as int) == e);
        } else {
            assert(spec_ws_end(s@, e as int) == n);
        }
    }
    let r = s.substring_char(e, n).to_owned();
    proof {
        assert(r@ =~= s@.skip(spec_leading_number_end(s@)));
    }
    r
}

/// Replaces the reserved characters with spaces.
fn replace_illegal(s: &str) -> (r: String)
    ensures
        r@ == spec_replace_illegal(s@),
{
    proof {
        reveal_strlit(" ");
    }
    let n = s.unicode_len();
    let mut r = String::new();
    let mut i: usize = 0;
    proof {
        assert(r@ =~= spec_replace_illegal(s@.take(0)));
    }
    while i < n
        invariant
            i <= n,
            n == s@.len(),
            r@ == spec_replace_illegal(s@.take(i as int)),
        decreases n - i,
    {
        proof {
            reveal_strlit(" ");
        }
        let c = s.get_char(i);
        let bad = c == '<' || c == '>' || c == ':' || c == '"' || c == '/' || c == '\\' || c == '|'
            || c == '?' || c == '*' || c == '[' || c == ']';
        if bad {
            r.append(" ");
        } else {
            let piece = s.substring_char(i, i + 1);
            proof {
                assert(piece@ =~= seq![s@[i as int]]);
            }
            r.append(piece);
        }
        proof {
            assert(spec_replace_illegal(s@.take(i as int)).len() == i);
            assert(spec_replace_illegal(s@.take(i as int + 1)).len() == i + 1);
            assert(r@ =~= spec_replace_illegal(s@.take(i as int + 1)));
        }
        i += 1;
    }
    proof {
        assert(s@.take(n as int) =~= s@);
    }
    r
}

/// Collapses every whitespace run to a single space.
fn collapse_ws(s: &str) -> (r: String)
    ensures
        r@ == spec_collapse_ws(s@),
{
    proof {
        reveal_strlit(" ");
    }
    let n = s.unicode_len();
    let mut r = String::new();
    let mut i: usize = 0;
    proof {
        assert(r@ =~= spec_collapse_ws(s@.take(0)));
    }
    while i < n
        invariant
            i <= n,
            n == s@.len(),
            r@ == spec_collapse_ws(s@.take(i as int)),
        decreases n - i,
    {
        proof {
            reveal_strlit(" ");
            assert(s@.take(i as int + 1).drop_last() =~= s@.take(i as int));
            assert(s@.take(i as int + 1).last() == s@[i as int]);
        }
        let c = s.get_char(i);
        if is_ws(c) {
            let prev_ws = i >= 1 && is_ws(s.get_char(i - 1));
            if !prev_ws {
                r.append(" ");
            }
        } else {
            let piece = s.substring_char(i, i + 1);
            proof {
                assert(piece@ =~= seq![s@[i as int]]);
            }
            r.append(piece);
        }
        proof {
            if i >= 1 {
                assert(s@.take(i as int + 1)[i - 1] == s@[i - 1]);
            }
            assert(r@ =~= spec_collapse_ws(s@.take(i as int + 1)));
        }
        i += 1;
    }
    proof {
        assert(s@.take(n as int) =~= s@);
    }
    r
}

/// Removes leading and trailing whitespace.
fn trim_ws(s: &str) -> (r: String)
    ensures
        r@ == spec_trim(s@),
{
    let n = s.unicode_len();
    let mut lo: usize = 0;
    while lo < n && is_ws(s.get_char(lo))
        invariant
            lo <= n,
            n == s@.len(),
            spec_ws_end(s@, 0) == spec_ws_end(s@, lo as int),
        decreases n - lo,
    {
        lo += 1;
    }
    proof {
        if lo < n {
            assert(spec_ws_end(s@, lo as int) == lo);
        } else {
            assert(spec_ws_end(s@, lo as int) == n);
        }
    }
    let mut hi: usize = n;
    proof {
        assert(s@.take(n as int) =~= s@);
    }
    while hi > 0 && is_ws(s.get_char(hi - 1))
        invariant
            hi <= n,
            n == s@.len(),
            spec_trim_hi(s@) == spec_trim_hi(s@.take(hi as int)),
        decreases hi,
    {
        proof {
            assert(s@.take(hi as int).last() == s@[hi - 1]);
            assert(s@.take(hi as int).drop_last() =~= s@.take(hi as int - 1));
        }
        hi -= 1;
    }
    proof {
        if hi > 0 {
            assert(s@.take(hi as int).last() == s@[hi - 1]);
            assert(spec_trim_hi(s@.take(hi as int)) == hi);
        } else {
            assert(s@.take(0).len() == 0);
            assert(spec_trim_hi(s@.take(0)) == 0);
        }
    }
    if lo <= hi {
        let r = s.substring_char(lo, hi).to_owned();
        proof {
            assert(r@ =~= spec_trim(s@));
        }
        r
    } else {
        proof {
            assert(Seq::<char>::empty() =~= spec_trim(s@));
        }
        String::new()
    }
}

/// The file-name splitter and composer.
pub struct FilenameCleaner {
}

impl core::default::Default for FilenameCleaner {
    /// The same as a new splitter.
    fn default() -> (r: FilenameCleaner)
        ensures
            true,
    {
        FilenameCleaner {  }
    }
}

impl FilenameCleaner {
    /// A new splitter.
    pub fn new() -> (r: FilenameCleaner)
        ensures
            true,
    {
        FilenameCleaner {  }
    }

    /// Splits a file name at its last dot into base and folded extension.
    pub fn split_extension(&self, filename: &str) -> (r: (String, String))
        ensures
            r.0@ == spec_split_base(filename@),
            r.1@ == spec_split_ext(filename@),
    {
        proof {
            lemma_last_dot_bounds(filename@);
            assert(filename@.take(filename@.len() as int) =~= filename@);
        }
        let n = filename.unicode_len();
        let mut i: usize = n;
        while i > 0
            invariant
                i <= n,
                n == filename@.len(),
                spec_last_dot(filename@) == (if spec_last_dot(filename@.take(i as int)) == i {
                    n as int
                } else {
                    spec_last_dot(filename@.take(i as int))
                }),
                spec_last_dot(filename@.take(i as int)) <= i,
            decreases i,
        {
            proof {
                lemma_last_dot_bounds(filename@.take(i as int));
                lemma_last_dot_bounds(filename@.take(i as int - 1));
                let cur = filename@.take(i as int);
                assert(cur.last() == filename@[i - 1]);
                assert(cur.drop_last() =~= filename@.take(i as int - 1));
                assert(cur.len() == i);
                assert(filename@.take(i as int - 1).len() == i - 1);
            }
            let c = filename.get_char(i - 1);
            if c == '.' {
                proof {
                    assert(spec_last_dot(filename@.take(i as int)) == i - 1);
                }
                let base = filename.substring_char(0, i - 1).to_owned();
                let ext = lower_ascii(filename.substring_char(i, n));
                proof {
                    assert(base@ =~= spec_split_base(filename@));
                    assert(ext@ =~= spec_split_ext(filename@));
                }
                return (base, ext);
            }
            i -= 1;
        }
        proof {
            assert(filename@.take(0).len() == 0);
            if n > 0 {
                assert(spec_last_dot(filename@.take(0)) == 0 == i);
                assert(spec_last_dot(filename@) == n);
            } else {
                assert(spec_last_dot(filename@) == 0);
            }
        }
        let base = filename.to_owned();
        proof {
            assert(base@ =~= spec_split_base(filename@));
            assert(Seq::<char>::empty() =~= spec_split_ext(filename@));
        }
        (base, String::new())
    }

    /// Strips every trailing `.convert` marker (compared without case)
    /// from a base name, reporting whether any stood there.
    pub fn extract_convert_flag(&self, base_name: &str) -> (r: (String, bool))
        ensures
            (r.0@, r.1) == spec_strip_convert(base_name@),
    {
        let mut cur: String = base_name.to_owned();
        let mut stripped: bool = false;
        loop
            invariant
                spec_strip_convert(base_name@) == (if stripped {
                    (spec_strip_convert(cur@).0, true)
                } else {
                    spec_strip_convert(cur@)
                }),
            decreases cur@.len(),
        {
            let n = cur.as_str().unicode_len();
            let has = if n < 8 {
                false
            } else {
                let tail = lower_ascii(cur.as_str().substring_char(n - 8, n));
                proof {
                    assert(tail@ =~= spec_lower(cur@.skip(cur@.len() - 8)));
                }
                tail.eq(&".convert".to_owned())
            };
            assert(has == spec_has_convert_suffix(cur@));
            if has {
                let next = cur.as_str().substring_char(0, n - 8).to_owned();
                proof {
                    assert(next@ =~= cur@.take(cur@.len() - 8));
                }
                cur = next;
                stripped = true;
            } else {
                return (cur, stripped);
            }
        }
    }

    /// Cleans a base name: the leading `[number]` marker, every
    /// serial-number identifier and every reserved character go, then
    /// whitespace is collapsed and trimmed; an empty result becomes
    /// `video`.
    pub fn clean_base_name(&self, base_name: &str) -> (r: String)
        ensures
            r@ == spec_clean_base(base_name@),
    {
        proof {
            reveal_strlit("video");
        }
        let a = strip_leading_number(base_name);
        let b = strip_bracket_uuids(a.as_str());
        let c = strip_underscore_uuids(b.as_str());
        let d = replace_illegal(c.as_str());
        let e = trim_ws(collapse_ws(d.as_str()).as_str());
        if e.as_str().unicode_len() == 0 {
            let r = "video".to_owned();
            assert(r@ == spec_clean_base(base_name@));
            r
        } else {
            assert(e@ == spec_clean_base(base_name@));
            e
        }
    }

    /// Takes a file name apart: the extension split off and folded, the
    /// conversion markers extracted, and the base cleaned.
    pub fn clean(&self, filename: &str) -> (r: CleanedFilename)
        ensures
            r.base_name@ == spec_clean_base(spec_strip_convert(spec_split_base(filename@)).0),
            r.extension@ == spec_split_ext(filename@),
            r.has_convert == spec_strip_convert(spec_split_base(filename@)).1,
    {
        let (base_with_converts, extension) = self.split_extension(filename);
        let (base_name, has_convert) = self.extract_convert_flag(base_with_converts.as_str());
        let cleaned_base = self.clean_base_name(base_name.as_str());
        CleanedFilename { base_name: cleaned_base, extension, has_convert }
    }

    /// Composes the new indexed file name:
    /// `[index] base_uuid[.convert].ext`.
    pub fn format_new_filename(&self, index: usize, cleaned: &CleanedFilename, new_uuid: &str) -> (r:
        String)
        ensures
            r@ == seq!['['] + spec_dec(index as nat) + "] "@ + cleaned.base_name@ + seq!['_']
                + new_uuid@ + (if cleaned.has_convert {
                ".convert"@
            } else {
                Seq::<char>::empty()
            }) + seq!['.'] + cleaned.extension@,
    {
        proof {
            reveal_strlit("[");
            reveal_strlit("_");
            reveal_strlit(".");
        }
        let mut r = "[".to_owned();
        let digits = fmt_u64(index as u64);
        r.append(digits.as_str());
        r.append("] ");
        r.append(cleaned.base_name.as_str());
        r.append("_");
        r.append(new_uuid);
        if cleaned.has_convert {
            r.append(".convert");
        }
        r.append(".");
        r.append(cleaned.extension.as_str());
        proof {
            assert(r@ =~= seq!['['] + spec_dec(index as nat) + "] "@ + cleaned.base_name@
                + seq!['_'] + new_uuid@ + (if cleaned.has_convert {
                ".convert"@
            } else {
                Seq::<char>::empty()
            }) + seq!['.'] + cleaned.extension@);
        }
        r
    }
}

} // verus!
