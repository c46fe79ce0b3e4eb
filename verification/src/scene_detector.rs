//! Scene-change detection support.
//!
//! The change-detection pass itself is run by the external decode service;
//! this module holds the verified parts around it: the auto-tuned analysis
//! profile, the filter expression and argument vector handed to the
//! service, and the parser for the change events the service prints on its
//! diagnostic stream.

use vstd::prelude::*;
use vstd::string::StrSliceExecFns;
use vstd::string::StringSliceAdditionalSpecFns;

use crate::strfmt::{fmt_milli_compact, fmt_u64, spec_dec, spec_milli_compact};
use crate::timestamp_selector::{spec_dedup, spec_sort};

verus! {

/// One detected cut: a position in the video, in milliseconds, and the
/// detector's confidence in thousandths (the external filter reports no
/// score, so the parser records unity).
#[derive(Debug, Clone, Copy, PartialEq, Eq, Structural)]
pub struct SceneChange {
    pub timestamp_ms: u64,
    pub score_milli: u64,
}

/// Detection profile: change sensitivity in thousandths, analysis rate in
/// frames per thousand seconds, and the width the video is scaled down to
/// before analysis.
#[derive(Debug, Clone, Copy, PartialEq, Eq, Structural)]
pub struct SceneDetectorConfig {
    pub threshold_milli: u64,
    pub analyze_fps_milli: u64,
    pub scale_width: u32,
}

impl core::default::Default for SceneDetectorConfig {
    /// The profile used when no duration is known: full analysis rate.
    fn default() -> (r: SceneDetectorConfig)
        ensures
            r.threshold_milli == 12000,
            r.analyze_fps_milli == 2000,
            r.scale_width == 320,
    {
        SceneDetectorConfig { threshold_milli: 12000, analyze_fps_milli: 2000, scale_width: 320 }
    }
}

impl SceneDetectorConfig {

    /// Tunes the analysis rate to the video's length: up to an hour is
    /// analysed at 2 frames per second, up to two hours at 1, and longer
    /// material at one frame every two seconds.
    pub fn auto_adjust(duration_ms: u64) -> (r: SceneDetectorConfig)
        ensures
            r.threshold_milli == 12000,
            r.scale_width == 320,
            r.analyze_fps_milli == spec_auto_fps_milli(duration_ms),
    {
        let analyze_fps_milli: u64 = if duration_ms > 7_200_000 {
            500
        } else if duration_ms > 3_600_000 {
            1000
        } else {
            2000
        };
        SceneDetectorConfig { threshold_milli: 12000, analyze_fps_milli, scale_width: 320 }
    }
}

/// The auto-tuned analysis rate for a video of the given length.
pub open spec fn spec_auto_fps_milli(duration_ms: u64) -> u64 {
    if duration_ms > 7_200_000 {
        500u64
    } else if duration_ms > 3_600_000 {
        1000u64
    } else {
        2000u64
    }
}

/// The analysis filter chain: scale down, drop the frame rate, detect.
pub open spec fn spec_scene_filter(config: SceneDetectorConfig) -> Seq<char> {
    "scale="@ + spec_dec(config.scale_width as nat) + ":-1,fps="@ + spec_milli_compact(
        config.analyze_fps_milli as nat,
    ) + ",scdet=s=1:t="@ + spec_milli_compact(config.threshold_milli as nat)
}

/// Builds the analysis filter chain of a detection profile.
pub fn build_scene_filter(config: &SceneDetectorConfig) -> (r: String)
    ensures
        r@ == spec_scene_filter(*config),
{
    let mut s = "scale=".to_owned();
    let w = fmt_u64(config.scale_width as u64);
    s.append(w.as_str());
    s.append(":-1,fps=");
    let fps = fmt_milli_compact(config.analyze_fps_milli);
    s.append(fps.as_str());
    s.append(",scdet=s=1:t=");
    let th = fmt_milli_compact(config.threshold_milli);
    s.append(th.as_str());
    proof {
        assert(s@ =~= spec_scene_filter(*config));
    }
    s
}

/// The argument vector of one detection pass: streams other than video
/// dropped, one decode thread, no output but the diagnostic stream.
pub open spec fn spec_detect_args(video: Seq<char>, config: SceneDetectorConfig) -> Seq<Seq<char>> {
    seq![
        "-hide_banner"@,
        "-i"@,
        video,
        "-an"@,
        "-sn"@,
        "-dn"@,
        "-threads"@,
        "1"@,
        "-vf"@,
        spec_scene_filter(config),
        "-f"@,
        "null"@,
        "-"@,
    ]
}

/// Builds the argument vector of one detection pass.
pub fn detect_scenes_args(video_path: &str, config: &SceneDetectorConfig) -> (r: Vec<String>)
    ensures
        crate::contact_sheet_merger::spec_views(r@) == spec_detect_args(video_path@, *config),
{
    let mut args: Vec<String> = Vec::new();
    args.push("-hide_banner".to_owned());
    args.push("-i".to_owned());
    args.push(video_path.to_owned());
    args.push("-an".to_owned());
    args.push("-sn".to_owned());
    args.push("-dn".to_owned());
    args.push("-threads".to_owned());
    args.push("1".to_owned());
    args.push("-vf".to_owned());
    args.push(build_scene_filter(config));
    args.push("-f".to_owned());
    args.push("null".to_owned());
    args.push("-".to_owned());
    proof {
        assert(crate::contact_sheet_merger::spec_views(args@) =~= spec_detect_args(
            video_path@,
            *config,
        ));
    }
    args
}

/// Whether a byte can belong to a numeric token: an ASCII digit or dot.
pub open spec fn spec_is_num_byte(b: u8) -> bool {
    (48 <= b && b <= 57) || b == 46
}

/// Whether a byte is an ASCII digit.
pub open spec fn spec_is_digit(b: u8) -> bool {
    48 <= b && b <= 57
}

/// The value of a string of ASCII digits.
pub open spec fn spec_digits_val(s: Seq<u8>) -> int
    decreases s.len(),
{
    if s.len() == 0 {
        0int
    } else {
        spec_digits_val(s.drop_last()) * 10 + (s.last() - 48)
    }
}

/// How many dots a token holds.
pub open spec fn spec_dot_count(s: Seq<u8>) -> int
    decreases s.len(),
{
    if s.len() == 0 {
        0int
    } else {
        spec_dot_count(s.drop_last()) + (if s.last() == 46 {
            1int
        } else {
            0int
        })
    }
}

/// The index of the first dot of a token, or its length.
pub open spec fn spec_dot_pos(s: Seq<u8>, i: int) -> int
    decreases s.len() - i,
{
    if i >= s.len() {
        s.len() as int
    } else if s[i] == 46 {
        i
    } else {
        spec_dot_pos(s, i + 1)
    }
}

/// The millisecond value of a fractional-digit string, truncated to
/// millisecond resolution.
pub open spec fn spec_frac_ms(fp: Seq<u8>) -> int {
    if fp.len() >= 3 {
        spec_digits_val(fp.take(3))
    } else if fp.len() == 2 {
        spec_digits_val(fp) * 10
    } else if fp.len() == 1 {
        spec_digits_val(fp) * 100
    } else {
        0int
    }
}

/// The millisecond value of a numeric token of digits and dots, or
/// nothing when the token is not a number: more than one dot, or no
/// digit at all.
pub open spec fn spec_token_ms(tok: Seq<u8>) -> Option<int> {
    if spec_dot_count(tok) > 1 || tok.len() - spec_dot_count(tok) < 1 {
        None
    } else {
        let dot = spec_dot_pos(tok, 0);
        let ip = tok.take(dot);
        let fp = if dot < tok.len() {
            tok.skip(dot + 1)
        } else {
            Seq::empty()
        };
        Some(spec_digits_val(ip) * 1000 + spec_frac_ms(fp))
    }
}

/// Whether position `i` of a line starts a `t:<number>` tag.
pub open spec fn spec_t_match_at(line: Seq<u8>, i: int) -> bool {
    &&& 0 <= i
    &&& i + 3 <= line.len()
    &&& line[i] == 116
    &&& line[i + 1] == 58
    &&& spec_is_num_byte(line[i + 2])
}

/// The first position at or after `i` where a `t:<number>` tag starts.
pub open spec fn spec_first_t(line: Seq<u8>, i: int) -> Option<int>
    decreases line.len() - i,
{
    if i + 3 > line.len() {
        None
    } else if spec_t_match_at(line, i) {
        Some(i)
    } else {
        spec_first_t(line, i + 1)
    }
}

/// Whether position `i` of a line starts a `lavfi.scd.time=<number>` tag.
pub open spec fn spec_scd_match_at(line: Seq<u8>, i: int) -> bool {
    &&& 0 <= i
    &&& i + 16 <= line.len()
    &&& line[i] == 108
    &&& line[i + 1] == 97
    &&& line[i + 2] == 118
    &&& line[i + 3] == 102
    &&& line[i + 4] == 105
    &&& line[i + 5] == 46
    &&& line[i + 6] == 115
    &&& line[i + 7] == 99
    &&& line[i + 8] == 100
    &&& line[i + 9] == 46
    &&& line[i + 10] == 116
    &&& line[i + 11] == 105
    &&& line[i + 12] == 109
    &&& line[i + 13] == 101
    &&& line[i + 14] == 61
    &&& spec_is_num_byte(line[i + 15])
}

/// The first position at or after `i` where the filter-specific tag starts.
pub open spec fn spec_first_scd(line: Seq<u8>, i: int) -> Option<int>
    decreases line.len() - i,
{
    if i + 16 > line.len() {
        None
    } else if spec_scd_match_at(line, i) {
        Some(i)
    } else {
        spec_first_scd(line, i + 1)
    }
}

/// The end of the numeric token that starts at `p`: the first position
/// at or after `p` holding no digit and no dot.
pub open spec fn spec_num_end(line: Seq<u8>, p: int) -> int
    decreases line.len() - p,
{
    if p >= line.len() {
        line.len() as int
    } else if spec_is_num_byte(line[p]) {
        spec_num_end(line, p + 1)
    } else {
        p
    }
}

/// The millisecond value one line contributes: the number after the
/// first generic `t:` tag if there is one (even when that number is
/// malformed), else the number after the first filter-specific tag.
pub open spec fn spec_line_ms(line: Seq<u8>) -> Option<int> {
    match spec_first_t(line, 0) {
        Some(i) => spec_token_ms(line.subrange(i + 2, spec_num_end(line, i + 2))),
        None => match spec_first_scd(line, 0) {
            Some(i) => spec_token_ms(line.subrange(i + 15, spec_num_end(line, i + 15))),
            None => None,
        },
    }
}

/// A line with its one trailing carriage return removed.
pub open spec fn spec_strip_cr(s: Seq<u8>) -> Seq<u8> {
    if s.len() > 0 && s.last() == 13 {
        s.drop_last()
    } else {
        s
    }
}

/// The first newline at or after `i`, or the text's length.
pub open spec fn spec_nl_at(s: Seq<u8>, i: int) -> int
    decreases s.len() - i,
{
    if i >= s.len() {
        s.len() as int
    } else if s[i] == 10 {
        i
    } else {
        spec_nl_at(s, i + 1)
    }
}

/// The first newline lies between the start offset and the text's end.
pub proof fn lemma_nl_at_bounds(s: Seq<u8>, i: int)
    requires
        0 <= i <= s.len(),
    ensures
        i <= spec_nl_at(s, i) <= s.len(),
    decreases s.len() - i,
{
    if i < s.len() && s[i] != 10 {
        lemma_nl_at_bounds(s, i + 1);
    }
}

/// The lines of a diagnostic text: split at newlines, one trailing
/// carriage return stripped from each, no final empty line after a
/// trailing newline.
pub open spec fn spec_text_lines(s: Seq<u8>) -> Seq<Seq<u8>>
    decreases s.len(),
    via spec_text_lines_decreases
{
    if s.len() == 0 {
        Seq::empty()
    } else {
        let nl = spec_nl_at(s, 0);
        let line = spec_strip_cr(s.take(nl));
        if nl >= s.len() {
            seq![line]
        } else {
            seq![line] + spec_text_lines(s.skip(nl + 1))
        }
    }
}

#[via_fn]
proof fn spec_text_lines_decreases(s: Seq<u8>) {
    if s.len() != 0 {
        lemma_nl_at_bounds(s, 0);
    }
}

/// The in-range candidate timestamps of a line list, in line order:
/// each line's value, kept when it lies strictly inside the video.
pub open spec fn spec_scdet_candidates(lines: Seq<Seq<u8>>, duration_ms: u64) -> Seq<u64>
    decreases lines.len(),
{
    if lines.len() == 0 {
        Seq::empty()
    } else {
        let rest = spec_scdet_candidates(lines.drop_first(), duration_ms);
        match spec_line_ms(lines[0]) {
            Some(v) => if 0 < v < duration_ms {
                seq![v as u64] + rest
            } else {
                rest
            },
            None => rest,
        }
    }
}

/// The parsed scene-change positions of a diagnostic text: the union of
/// both tag formats' valid in-range values, sorted ascending and
/// de-duplicated at the selector's window.
pub open spec fn spec_parse_scdet(bytes: Seq<u8>, duration_ms: u64) -> Seq<u64> {
    spec_dedup(spec_sort(spec_scdet_candidates(spec_text_lines(bytes), duration_ms)))
}

/// Every candidate timestamp of a line list lies strictly inside the
/// video.
proof fn lemma_candidates_range(lines: Seq<Seq<u8>>, duration_ms: u64)
    ensures
        forall|k: int|
            0 <= k < spec_scdet_candidates(lines, duration_ms).len() ==> 0 < #[trigger] spec_scdet_candidates(
                lines,
                duration_ms,
            )[k] < duration_ms,
    decreases lines.len(),
{
    if lines.len() > 0 {
        lemma_candidates_range(lines.drop_first(), duration_ms);
        let rest = spec_scdet_candidates(lines.drop_first(), duration_ms);
        let whole = spec_scdet_candidates(lines, duration_ms);
        match spec_line_ms(lines[0]) {
            Some(v) => {
                if 0 < v < duration_ms {
                    assert(whole =~= seq![v as u64] + rest);
                    assert(forall|k: int| 0 < k < whole.len() ==> whole[k] == rest[k - 1]);
                } else {
                    assert(whole == rest);
                }
            },
            None => {
                assert(whole == rest);
            },
        }
    }
}

/// A parsed scene list is sorted ascending with at least the
/// de-duplication window between any two entries, and every entry lies
/// strictly inside the video.
pub proof fn lemma_parse_scdet_props(bytes: Seq<u8>, duration_ms: u64)
    ensures
        ({
            let r = spec_parse_scdet(bytes, duration_ms);
            &&& forall|a: int, b: int|
                0 <= a < b < r.len() ==> #[trigger] r[a] + crate::timestamp_selector::DEDUP_WINDOW_MS
                    <= #[trigger] r[b]
            &&& forall|k: int| 0 <= k < r.len() ==> 0 < #[trigger] r[k] < duration_ms
        }),
{
    let cands = spec_scdet_candidates(spec_text_lines(bytes), duration_ms);
    lemma_candidates_range(spec_text_lines(bytes), duration_ms);
    let sorted = spec_sort(cands);
    crate::timestamp_selector::lemma_sort_multiset(cands);
    crate::timestamp_selector::lemma_sort_sorted(cands);
    assert forall|k: int| 0 <= k < sorted.len() implies 0 < #[trigger] sorted[k] < duration_ms by {
        assert(sorted.contains(sorted[k]));
        assert(cands.contains(sorted[k]));
        let w = choose|w: int| 0 <= w < cands.len() && cands[w] == sorted[k];
    }
    let r = spec_parse_scdet(bytes, duration_ms);
    if sorted.len() == 0 {
        assert(r =~= Seq::<u64>::empty());
    } else {
        crate::timestamp_selector::lemma_dedup_props(sorted);
        assert forall|k: int| 0 <= k < r.len() implies 0 < #[trigger] r[k] < duration_ms by {
            assert(sorted.contains(r[k]));
            let w = choose|w: int| 0 <= w < sorted.len() && sorted[w] == r[k];
        }
    }
}

/// Whether a byte can belong to a numeric token.
fn is_num_byte(b: u8) -> (r: bool)
    ensures
        r == spec_is_num_byte(b),
{
    (48 <= b && b <= 57) || b == 46
}

/// A numeric token's end, and that everything before it is numeric.
pub proof fn lemma_num_end_props(line: Seq<u8>, p: int)
    requires
        0 <= p <= line.len(),
    ensures
        p <= spec_num_end(line, p) <= line.len(),
        forall|k: int| p <= k < spec_num_end(line, p) ==> spec_is_num_byte(#[trigger] line[k]),
    decreases line.len() - p,
{
    if p < line.len() && spec_is_num_byte(line[p]) {
        lemma_num_end_props(line, p + 1);
    }
}

/// Digit strings have nonnegative value, and the value only grows as
/// digits are appended.
proof fn lemma_digits_val_nonneg(s: Seq<u8>)
    requires
        forall|k: int| 0 <= k < s.len() ==> spec_is_digit(#[trigger] s[k]),
    ensures
        spec_digits_val(s) >= 0,
    decreases s.len(),
{
    if s.len() > 0 {
        lemma_digits_val_nonneg(s.drop_last());
    }
}

/// The millisecond value of a numeric token of digits and dots, or
/// nothing: when the token is malformed, or when its value does not fit
/// the machine word (the caller treats both as no usable timestamp).
pub(crate) fn token_ms(tok: &Vec<u8>) -> (r: Option<u64>)
    requires
        forall|k: int| 0 <= k < tok@.len() ==> spec_is_num_byte(#[trigger] tok@[k]),
    ensures
        match r {
            Some(w) => spec_token_ms(tok@) == Some(w as int),
            None => spec_token_ms(tok@) is None || spec_token_ms(tok@).unwrap() > u64::MAX,
        },
{
    let n = tok.len();
    let mut dots: usize = 0;
    let mut first_dot: usize = n;
    let mut i: usize = 0;
    while i < n
        invariant
            i <= n,
            n == tok@.len(),
            dots <= i,
            dots as int == spec_dot_count(tok@.take(i as int)),
            first_dot <= n,
            first_dot == n ==> spec_dot_pos(tok@, 0) == spec_dot_pos(tok@, i as int),
            first_dot < n ==> first_dot < i && spec_dot_pos(tok@, 0) == first_dot,
        decreases n - i,
    {
        proof {
            assert(tok@.take(i as int + 1).drop_last() =~= tok@.take(i as int));
            assert(tok@.take(i as int + 1).last() == tok@[i as int]);
            lemma_dot_pos_step(tok@, i as int);
        }
        if tok[i] == 46 {
            dots += 1;
            if first_dot == n {
                first_dot = i;
            }
        }
        i += 1;
    }
    proof {
        assert(tok@.take(n as int) =~= tok@);
        assert(i == n);
        if first_dot == n {
            assert(spec_dot_pos(tok@, 0) == spec_dot_pos(tok@, n as int));
            assert(spec_dot_pos(tok@, n as int) == n as int);
        } else {
            assert(spec_dot_pos(tok@, 0) == first_dot as int);
        }
        lemma_dot_pos_bounds(tok@, 0);
    }
    let ghost dot = spec_dot_pos(tok@, 0);
    assert(first_dot as int == dot || (first_dot == n && dot == n));
    if dots > 1 || n - dots < 1 {
        return None;
    }
    let ip_end: usize = first_dot;
    let ghost ip = tok@.take(dot);
    proof {
        assert forall|k: int| 0 <= k < ip.len() implies spec_is_digit(#[trigger] ip[k]) by {
            assert(ip[k] == tok@[k]);
            assert(tok@[k] != 46);
        }
        lemma_digits_val_nonneg(ip);
    }
    let mut acc: u64 = 0;
    let mut over: bool = false;
    let mut j: usize = 0;
    while j < ip_end
        invariant
            j <= ip_end,
            ip_end <= n == tok@.len(),
            ip == tok@.take(ip_end as int),
            forall|k: int| 0 <= k < ip.len() ==> spec_is_digit(#[trigger] ip[k]),
            !over ==> acc as int == spec_digits_val(ip.take(j as int)),
            over ==> spec_digits_val(ip.take(j as int)) > u64::MAX,
        decreases ip_end - j,
    {
        proof {
            assert(ip[j as int] == tok@[j as int]);
            assert(spec_is_digit(tok@[j as int]));
        }
        let d: u64 = (tok[j] - 48) as u64;
        proof {
            assert(ip.take(j as int + 1).drop_last() =~= ip.take(j as int));
            assert(ip.take(j as int + 1).last() == ip[j as int]);
            assert(ip[j as int] == tok@[j as int]);
            lemma_digits_val_nonneg(ip.take(j as int));
            lemma_digits_val_nonneg(ip.take(j as int + 1));
        }
        if over {
            proof {
                assert(spec_digits_val(ip.take(j as int + 1)) == spec_digits_val(
                    ip.take(j as int),
                ) * 10 + d);
                assert(spec_digits_val(ip.take(j as int)) * 10 >= spec_digits_val(
                    ip.take(j as int),
                )) by (nonlinear_arith)
                    requires
                        spec_digits_val(ip.take(j as int)) >= 0,
                ;
            }
        } else if acc > (u64::MAX - d) / 10 {
            over = true;
            proof {
                assert(spec_digits_val(ip.take(j as int + 1)) == acc as int * 10 + d);
                assert(acc as int >= (u64::MAX - d) / 10 + 1);
                assert(((u64::MAX - d) as int / 10 + 1) * 10 + d > u64::MAX) by (nonlinear_arith)
                    requires
                        0 <= d <= 9,
                ;
                assert(acc as int * 10 >= ((u64::MAX - d) as int / 10 + 1) * 10)
                    by (nonlinear_arith)
                    requires
                        acc as int >= (u64::MAX - d) as int / 10 + 1,
                ;
            }
        } else {
            proof {
                assert(acc as int * 10 + d <= ((u64::MAX - d) as int / 10) * 10 + d)
                    by (nonlinear_arith)
                    requires
                        0 <= acc as int <= (u64::MAX - d) as int / 10,
                ;
                assert(((u64::MAX - d) as int / 10) * 10 <= (u64::MAX - d) as int) by {
                    vstd::arithmetic::div_mod::lemma_fundamental_div_mod((u64::MAX - d) as int, 10);
                }
            }
            acc = acc * 10 + d;
        }
        j += 1;
    }
    proof {
        assert(ip.take(ip_end as int) =~= ip);
    }
    let frac: u64 = if first_dot < n {
        let fp_start = first_dot + 1;
        let fp_len = n - fp_start;
        let ghost fp = tok@.skip(dot + 1);
        proof {
            assert(fp.len() == fp_len);
            assert(tok@[dot] == 46);
            assert forall|k: int| 0 <= k < fp.len() implies spec_is_digit(#[trigger] fp[k]) by {
                assert(fp[k] == tok@[dot + 1 + k]);
                assert(spec_is_num_byte(tok@[dot + 1 + k]));
                if tok@[dot + 1 + k] == 46 {
                    lemma_two_dots(tok@, dot, dot + 1 + k);
                }
            }
        }
        if fp_len == 0 {
            0
        } else {
            proof {
                assert(fp[0] == tok@[fp_start as int]);
            }
            let d0 = (tok[fp_start] - 48) as u64;
            if fp_len == 1 {
                proof {
                    reveal_with_fuel(spec_digits_val, 3);
                    assert(fp.drop_last() =~= Seq::<u8>::empty());
                    assert(fp.last() == fp[0]);
                    assert(spec_digits_val(fp) == fp[0] - 48);
                }
                d0 * 100
            } else {
                proof {
                    assert(fp[1] == tok@[fp_start as int + 1]);
                }
                let d1 = (tok[fp_start + 1] - 48) as u64;
                if fp_len == 2 {
                    proof {
                        reveal_with_fuel(spec_digits_val, 4);
                        assert(fp.drop_last() =~= fp.take(1));
                        assert(fp.last() == fp[1]);
                        assert(fp.take(1).drop_last() =~= Seq::<u8>::empty());
                        assert(fp.take(1).last() == fp[0]);
                        assert(spec_digits_val(fp) == (fp[0] - 48) * 10 + (fp[1] - 48));
                    }
                    d0 * 100 + d1 * 10
                } else {
                    proof {
                        assert(fp[2] == tok@[fp_start as int + 2]);
                    }
                    let d2 = (tok[fp_start + 2] - 48) as u64;
                    proof {
                        reveal_with_fuel(spec_digits_val, 5);
                        let f3 = fp.take(3);
                        assert(f3.drop_last() =~= fp.take(2));
                        assert(f3.last() == fp[2]);
                        assert(fp.take(2).drop_last() =~= fp.take(1));
                        assert(fp.take(2).last() == fp[1]);
                        assert(fp.take(1).drop_last() =~= Seq::<u8>::empty());
                        assert(fp.take(1).last() == fp[0]);
                        assert(spec_digits_val(f3) == ((fp[0] - 48) * 10 + (fp[1] - 48)) * 10 + (
                        fp[2] - 48));
                    }
                    d0 * 100 + d1 * 10 + d2
                }
            }
        }
    } else {
        0
    };
    assert(frac as int == spec_frac_ms(
        if dot < tok@.len() {
            tok@.skip(dot + 1)
        } else {
            Seq::empty()
        },
    ));
    if over {
        proof {
            assert(spec_digits_val(ip) * 1000 + spec_frac_ms(
                if dot < tok@.len() {
                    tok@.skip(dot + 1)
                } else {
                    Seq::empty()
                },
            ) > u64::MAX) by (nonlinear_arith)
                requires
                    spec_digits_val(ip) > u64::MAX,
                    spec_frac_ms(
                        if dot < tok@.len() {
                            tok@.skip(dot + 1)
                        } else {
                            Seq::empty()
                        },
                    ) >= 0,
            ;
        }
        return None;
    }
    let acc128: u128 = (acc as u128) * 1000 + (frac as u128);
    if acc128 > u64::MAX as u128 {
        return None;
    }
    Some(acc128 as u64)
}

/// Two dots at distinct positions mean at least two dots counted.
proof fn lemma_two_dots(s: Seq<u8>, a: int, b: int)
    requires
        0 <= a < b < s.len(),
        s[a] == 46,
        s[b] == 46,
    ensures
        spec_dot_count(s) >= 2,
    decreases s.len(),
{
    if b == s.len() - 1 {
        assert(s.drop_last()[a] == s[a]);
        lemma_one_dot(s.drop_last(), a);
    } else {
        assert(s.drop_last()[a] == s[a]);
        assert(s.drop_last()[b] == s[b]);
        lemma_two_dots(s.drop_last(), a, b);
        lemma_dot_count_nonneg(s.drop_last());
    }
}

/// A dot at some position means at least one dot counted.
proof fn lemma_one_dot(s: Seq<u8>, a: int)
    requires
        0 <= a < s.len(),
        s[a] == 46,
    ensures
        spec_dot_count(s) >= 1,
    decreases s.len(),
{
    if a == s.len() - 1 {
        lemma_dot_count_nonneg(s.drop_last());
    } else {
        assert(s.drop_last()[a] == s[a]);
        lemma_one_dot(s.drop_last(), a);
    }
}

/// Dot counts are never negative.
proof fn lemma_dot_count_nonneg(s: Seq<u8>)
    ensures
        spec_dot_count(s) >= 0,
    decreases s.len(),
{
    if s.len() > 0 {
        lemma_dot_count_nonneg(s.drop_last());
    }
}

/// The first position where a `t:<number>` tag starts, if any.
fn find_t(line: &Vec<u8>) -> (r: Option<usize>)
    ensures
        match r {
            Some(i) => spec_first_t(line@, 0) == Some(i as int) && spec_t_match_at(line@, i as int),
            None => spec_first_t(line@, 0) is None,
        },
{
    let n = line.len();
    if n < 3 {
        return None;
    }
    let mut i: usize = 0;
    while i <= n - 3
        invariant
            3 <= n == line@.len(),
            i <= n - 2,
            spec_first_t(line@, 0) == spec_first_t(line@, i as int),
        decreases n - i,
    {
        if line[i] == 116 && line[i + 1] == 58 && is_num_byte(line[i + 2]) {
            assert(spec_t_match_at(line@, i as int));
            return Some(i);
        }
        i += 1;
    }
    None
}

/// Whether position `i` starts the filter-specific tag.
fn scd_match(line: &Vec<u8>, i: usize) -> (r: bool)
    requires
        i + 16 <= line@.len(),
    ensures
        r == spec_scd_match_at(line@, i as int),
{
    let n = line.len();
    assert(i + 16 <= n);
    line[i] == 108 && line[i + 1] == 97 && line[i + 2] == 118 && line[i + 3] == 102 && line[i + 4]
        == 105 && line[i + 5] == 46 && line[i + 6] == 115 && line[i + 7] == 99 && line[i + 8] == 100
        && line[i + 9] == 46 && line[i + 10] == 116 && line[i + 11] == 105 && line[i + 12] == 109
        && line[i + 13] == 101 && line[i + 14] == 61 && is_num_byte(line[i + 15])
}

/// The first position where the filter-specific tag starts, if any.
fn find_scd(line: &Vec<u8>) -> (r: Option<usize>)
    ensures
        match r {
            Some(i) => spec_first_scd(line@, 0) == Some(i as int) && spec_scd_match_at(
                line@,
                i as int,
            ),
            None => spec_first_scd(line@, 0) is None,
        },
{
    let n = line.len();
    if n < 16 {
        return None;
    }
    let mut i: usize = 0;
    while i <= n - 16
        invariant
            16 <= n == line@.len(),
            i <= n - 15,
            spec_first_scd(line@, 0) == spec_first_scd(line@, i as int),
        decreases n - i,
    {
        if scd_match(line, i) {
            return Some(i);
        }
        i += 1;
    }
    None
}

/// The end of the numeric token starting at `p`.
fn num_end(line: &Vec<u8>, p: usize) -> (r: usize)
    requires
        p <= line@.len(),
    ensures
        r as int == spec_num_end(line@, p as int),
        p <= r <= line@.len(),
{
    let n = line.len();
    let mut e: usize = p;
    while e < n && is_num_byte(line[e])
        invariant
            n == line@.len(),
            p <= e <= n,
            spec_num_end(line@, p as int) == spec_num_end(line@, e as int),
        decreases n - e,
    {
        e += 1;
    }
    e
}

/// The millisecond value one line contributes, if any; a value too large
/// for the machine word counts as none (it could never lie inside a
/// video's duration).
fn line_ms(line: &Vec<u8>) -> (r: Option<u64>)
    ensures
        match r {
            Some(w) => spec_line_ms(line@) == Some(w as int),
            None => spec_line_ms(line@) is None || spec_line_ms(line@).unwrap() > u64::MAX,
        },
{
    let n = line.len();
    let start: usize = match find_t(line) {
        Some(i) => {
            assert(i + 3 <= n);
            i + 2
        },
        None => {
            match find_scd(line) {
                Some(i) => {
                    assert(i + 16 <= n);
                    i + 15
                },
                None => {
                    return None;
                },
            }
        },
    };
    let e = num_end(line, start);
    let mut tok: Vec<u8> = Vec::new();
    let mut k: usize = start;
    proof {
        lemma_num_end_props(line@, start as int);
    }
    while k < e
        invariant
            start <= k <= e,
            e <= line@.len(),
            e as int == spec_num_end(line@, start as int),
            tok@ == line@.subrange(start as int, k as int),
            forall|m: int|
                start <= m < spec_num_end(line@, start as int) ==> spec_is_num_byte(
                    #[trigger] line@[m],
                ),
        decreases e - k,
    {
        tok.push(line[k]);
        proof {
            assert(tok@ =~= line@.subrange(start as int, k as int + 1));
        }
        k += 1;
    }
    proof {
        assert forall|m: int| 0 <= m < tok@.len() implies spec_is_num_byte(#[trigger] tok@[m]) by {
            assert(tok@[m] == line@[start + m]);
        }
    }
    token_ms(&tok)
}

/// Parses the detector's diagnostic text: both tag formats are tried on
/// every line, the recognised positions are kept when they lie strictly
/// inside the video, and the result is sorted ascending and de-duplicated
/// at the selector's window.  Each scene change carries unit confidence,
/// as the external filter reports no score.
pub fn parse_scdet_output(output: &str, duration_ms: u64) -> (r: Vec<SceneChange>)
    ensures
        r@.map_values(|sc: SceneChange| sc.timestamp_ms) == spec_parse_scdet(
            output.spec_bytes(),
            duration_ms,
        ),
        forall|j: int| 0 <= j < r@.len() ==> (#[trigger] r@[j]).score_milli == 1000,
{
    let bytes: Vec<u8> = output.as_bytes_vec();
    let n = bytes.len();
    let mut candidates: Vec<u64> = Vec::new();
    let mut pos: usize = 0;
    let ghost all_lines = spec_text_lines(bytes@);
    proof {
        assert(bytes@.skip(0) =~= bytes@);
    }
    while pos < n
        invariant
            n == bytes@.len(),
            pos <= n,
            all_lines == spec_text_lines(bytes@),
            spec_scdet_candidates(all_lines, duration_ms) == candidates@ + spec_scdet_candidates(
                spec_text_lines(bytes@.skip(pos as int)),
                duration_ms,
            ),
        decreases n - pos,
    {
        let ghost suffix = bytes@.skip(pos as int);
        let mut e: usize = pos;
        while e < n && bytes[e] != 10
            invariant
                pos <= e <= n,
                n == bytes@.len(),
                suffix == bytes@.skip(pos as int),
                spec_nl_at(suffix, 0) == spec_nl_at(suffix, (e - pos) as int),
                forall|m: int| 0 <= m < suffix.len() ==> suffix[m] == bytes@[pos + m],
            decreases n - e,
        {
            e += 1;
        }
        proof {
            assert(suffix.len() == n - pos);
            if e < n {
                assert(suffix[(e - pos) as int] == 10);
                assert(spec_nl_at(suffix, (e - pos) as int) == e - pos);
            } else {
                assert(spec_nl_at(suffix, (e - pos) as int) == suffix.len());
            }
        }
        let ghost nl = spec_nl_at(suffix, 0);
        assert(nl == e - pos);
        let line_end: usize = if e > pos && bytes[e - 1] == 13 {
            e - 1
        } else {
            e
        };
        let mut line: Vec<u8> = Vec::new();
        let mut k: usize = pos;
        while k < line_end
            invariant
                pos <= k <= line_end,
                line_end <= n == bytes@.len(),
                line@ == bytes@.subrange(pos as int, k as int),
            decreases line_end - k,
        {
            line.push(bytes[k]);
            proof {
                assert(line@ =~= bytes@.subrange(pos as int, k as int + 1));
            }
            k += 1;
        }
        proof {
            assert(suffix.take(nl) =~= bytes@.subrange(pos as int, e as int));
            if e > pos && bytes@[e - 1] == 13 {
                assert(suffix.take(nl).last() == 13);
                assert(line@ =~= suffix.take(nl).drop_last());
                assert(line@ =~= spec_strip_cr(suffix.take(nl)));
            } else {
                if nl > 0 {
                    assert(suffix.take(nl).last() == bytes@[e - 1]);
                }
                assert(line@ =~= suffix.take(nl));
                assert(line@ =~= spec_strip_cr(suffix.take(nl)));
            }
        }
        let value = line_ms(&line);
        match value {
            Some(v) => {
                if 0 < v && v < duration_ms {
                    candidates.push(v);
                }
            },
            None => {},
        }
        let next: usize = if e < n {
            e + 1
        } else {
            n
        };
        proof {
            let lines_here = spec_text_lines(suffix);
            assert(suffix.len() > 0);
            assert(lines_here[0] == line@);
            if nl >= suffix.len() {
                assert(lines_here =~= seq![line@]);
                assert(next == n);
                assert(bytes@.skip(n as int).len() == 0);
                assert(spec_text_lines(bytes@.skip(n as int)) =~= Seq::<Seq<u8>>::empty());
                assert(lines_here.drop_first() =~= spec_text_lines(bytes@.skip(next as int)));
            } else {
                assert(suffix.skip(nl + 1) =~= bytes@.skip(next as int));
                assert(lines_here =~= seq![line@] + spec_text_lines(bytes@.skip(next as int)));
                assert(lines_here.drop_first() =~= spec_text_lines(bytes@.skip(next as int)));
            }
            let expected = spec_scdet_candidates(lines_here, duration_ms);
            let rest = spec_scdet_candidates(spec_text_lines(bytes@.skip(next as int)), duration_ms);
            match spec_line_ms(line@) {
                Some(v) => {
                    if 0 < v < duration_ms {
                        assert(expected =~= seq![v as u64] + rest);
                    } else {
                        assert(expected =~= rest);
                    }
                },
                None => {
                    assert(expected =~= rest);
                },
            }
            assert(spec_scdet_candidates(all_lines, duration_ms) =~= candidates@
                + spec_scdet_candidates(spec_text_lines(bytes@.skip(next as int)), duration_ms));
        }
        pos = next;
    }
    proof {
        assert(bytes@.skip(n as int).len() == 0);
        assert(spec_text_lines(bytes@.skip(n as int)) =~= Seq::<Seq<u8>>::empty());
        assert(candidates@ =~= spec_scdet_candidates(all_lines, duration_ms));
    }
    let sorted = crate::timestamp_selector::sort_points(&candidates);
    let deduped = crate::timestamp_selector::dedup_points(&sorted);
    let mut r: Vec<SceneChange> = Vec::new();
    let mut i: usize = 0;
    while i < deduped.len()
        invariant
            i <= deduped@.len(),
            r@.len() == i,
            forall|j: int|
                0 <= j < i ==> (#[trigger] r@[j]).timestamp_ms == deduped@[j] && r@[j].score_milli
                    == 1000,
        decreases deduped.len() - i,
    {
        r.push(SceneChange { timestamp_ms: deduped[i], score_milli: 1000 });
        i += 1;
    }
    proof {
        assert(r@.map_values(|sc: SceneChange| sc.timestamp_ms) =~= deduped@);
    }
    r
}

/// The first-dot scan can advance one position at a time.
proof fn lemma_dot_pos_step(s: Seq<u8>, i: int)
    requires
        0 <= i < s.len(),
    ensures
        s[i] == 46 ==> spec_dot_pos(s, i) == i,
        s[i] != 46 ==> spec_dot_pos(s, i) == spec_dot_pos(s, i + 1),
{
}

/// The first dot lies between the start offset and the token's length.
proof fn lemma_dot_pos_bounds(s: Seq<u8>, i: int)
    requires
        0 <= i <= s.len(),
    ensures
        i <= spec_dot_pos(s, i) <= s.len(),
        forall|k: int| i <= k < spec_dot_pos(s, i) ==> #[trigger] s[k] != 46,
        spec_dot_pos(s, i) < s.len() ==> s[spec_dot_pos(s, i)] == 46,
    decreases s.len() - i,
{
    if i < s.len() && s[i] != 46 {
        lemma_dot_pos_bounds(s, i + 1);
    }
}

} // verus!
