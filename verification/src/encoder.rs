//! Re-encoding tasks and their scheduling decisions.
//!
//! One task per video: the source, the derived destination name, and the
//! task's state.  Spawning the external encoder, watching its processes
//! and moving failed sources aside belong to the surrounding binary; the
//! verified side owns the destination naming, the full argument vector,
//! and the pick-next/all-done decisions of the scheduler loop.

use vstd::prelude::*;
use vstd::string::StrSliceExecFns;
use vstd::string::StringSliceAdditionalSpecFns;

use crate::config::Config;
use crate::contact_sheet_merger::spec_views;
use crate::pathtext::{file_name_of, spec_file_name, spec_name_start, spec_stem, stem_of};
use crate::video_scanner::VideoFileInfo;

verus! {

/// The destination of a re-encode: beside the source, the source's stem
/// with a `.convert.mkv` suffix (`output` when the name has no stem).
pub open spec fn spec_destination(path: Seq<char>) -> Seq<char> {
    let stem = spec_stem(spec_file_name(path));
    let base = if stem.len() == 0 {
        "output"@
    } else {
        stem
    };
    path.take(spec_name_start(path)) + base + ".convert.mkv"@
}

/// One planned invocation of the external encoder.
pub struct FfmpegCommand {
    source_path: String,
    destination_path: String,
}

impl FfmpegCommand {
    /// The planned source path.
    pub closed spec fn spec_source(self) -> Seq<char> {
        self.source_path@
    }

    /// The planned destination path.
    pub closed spec fn spec_dest(self) -> Seq<char> {
        self.destination_path@
    }

    /// Plans the re-encode of one source file.
    pub fn new(source_path: &str) -> (r: FfmpegCommand)
        ensures
            r.spec_source() == source_path@,
            r.spec_dest() == spec_destination(source_path@),
    {
        let destination_path = Self::generate_destination_path(source_path);
        FfmpegCommand { source_path: source_path.to_owned(), destination_path }
    }

    /// The destination beside the source: its stem plus `.convert.mkv`.
    fn generate_destination_path(source_path: &str) -> (r: String)
        ensures
            r@ == spec_destination(source_path@),
    {
        proof {
            crate::pathtext::lemma_name_start_bounds(source_path@);
        }
        let n = source_path.unicode_len();
        let name = file_name_of(source_path);
        let name_len = name.as_str().unicode_len();
        let stem = stem_of(name.as_str());
        let mut r = source_path.substring_char(0, n - name_len).to_owned();
        proof {
            assert(r@ =~= source_path@.take(spec_name_start(source_path@)));
        }
        if stem.as_str().unicode_len() == 0 {
            r.append("output");
        } else {
            r.append(stem.as_str());
        }
        r.append(".convert.mkv");
        proof {
            assert(r@ =~= spec_destination(source_path@));
        }
        r
    }

    /// The planned destination path.
    pub fn destination_path(&self) -> (r: &str)
        ensures
            r@ == self.spec_dest(),
    {
        self.destination_path.as_str()
    }

    /// The full argument vector of the re-encode: a defensive probe
    /// setup, the first video and audio streams only, stripped metadata,
    /// even dimensions, ten-bit encoding at a fixed quality, lossless
    /// audio, one matroska output.
    pub fn build_args(&self) -> (r: Vec<String>)
        ensures
            spec_views(r@) == spec_encode_args(self.spec_source(), self.spec_dest()),
    {
        let mut args: Vec<String> = Vec::new();
        args.push("-hide_banner".to_owned());
        args.push("-nostdin".to_owned());
        args.push("-loglevel".to_owned());
        args.push("error".to_owned());
        args.push("-protocol_whitelist".to_owned());
        args.push("file,pipe,fd".to_owned());
        args.push("-max_streams".to_owned());
        args.push("8".to_owned());
        args.push("-probesize".to_owned());
        args.push("1000000".to_owned());
        args.push("-analyzeduration".to_owned());
        args.push("1000000".to_owned());
        args.push("-max_probe_packets".to_owned());
        args.push("512".to_owned());
        args.push("-err_detect".to_owned());
        args.push("careful".to_owned());
        args.push("-fflags".to_owned());
        args.push("+genpts+discardcorrupt+bitexact+igndts".to_owned());
        args.push("-flags:v".to_owned());
        args.push("+bitexact".to_owned());
        args.push("-flags:a".to_owned());
        args.push("+bitexact".to_owned());
        args.push("-i".to_owned());
        let mut input = "file:".to_owned();
        input.append(self.source_path.as_str());
        args.push(input);
        args.push("-map".to_owned());
        args.push("0:v:0".to_owned());
        args.push("-map".to_owned());
        args.push("0:a:0?".to_owned());
        args.push("-sn".to_owned());
        args.push("-dn".to_owned());
        args.push("-map".to_owned());
        args.push("-0:s".to_owned());
        args.push("-map".to_owned());
        args.push("-0:d".to_owned());
        args.push("-map".to_owned());
        args.push("-0:t".to_owned());
        args.push("-map".to_owned());
        args.push("-0:v:m:attached_pic".to_owned());
        args.push("-map_metadata".to_owned());
        args.push("-1".to_owned());
        args.push("-map_metadata:s".to_owned());
        args.push("-1".to_owned());
        args.push("-map_chapters".to_owned());
        args.push("-1".to_owned());
        args.push("-avoid_negative_ts".to_owned());
        args.push("make_zero".to_owned());
        args.push("-vf".to_owned());
        args.push(
            "scale=round(iw*if(sar\\,sar\\,1)/2)*2:round(ih/2)*2,setsar=1,format=yuv420p10le".to_owned(),
        );
        args.push("-c:v".to_owned());
        args.push("libx265".to_owned());
        args.push("-profile:v".to_owned());
        args.push("main10".to_owned());
        args.push("-pix_fmt".to_owned());
        args.push("yuv420p10le".to_owned());
        args.push("-udu_sei".to_owned());
        args.push("0".to_owned());
        args.push("-preset".to_owned());
        args.push("fast".to_owned());
        args.push("-g".to_owned());
        args.push("60".to_owned());
        args.push("-keyint_min".to_owned());
        args.push("60".to_owned());
        args.push("-crf".to_owned());
        args.push("16".to_owned());
        args.push("-x265-params".to_owned());
        args.push(
            "no-info=1:pmode=1:limit-sao=1:cutree=1:rc-lookahead=30:bframes=4:b-adapt=2:psy-rd=1.0:psy-rdoq=0.5:open-gop=0".to_owned(),
        );
        args.push("-bsf:v".to_owned());
        args.push("filter_units=remove_types=35|38-40".to_owned());
        args.push("-c:a".to_owned());
        args.push("flac".to_owned());
        args.push("-ar".to_owned());
        args.push("48000".to_owned());
        args.push("-ac".to_owned());
        args.push("2".to_owned());
        args.push("-f".to_owned());
        args.push("matroska".to_owned());
        args.push(self.destination_path.clone());
        proof {
            assert(spec_views(args@) =~= spec_encode_args(
                self.source_path@,
                self.destination_path@,
            ));
        }
        args
    }
}

/// The full argument vector of one re-encode.
pub open spec fn spec_encode_args(source: Seq<char>, dest: Seq<char>) -> Seq<Seq<char>> {
    seq![
        "-hide_banner"@,
        "-nostdin"@,
        "-loglevel"@,
        "error"@,
        "-protocol_whitelist"@,
        "file,pipe,fd"@,
        "-max_streams"@,
        "8"@,
        "-probesize"@,
        "1000000"@,
        "-analyzeduration"@,
        "1000000"@,
        "-max_probe_packets"@,
        "512"@,
        "-err_detect"@,
        "careful"@,
        "-fflags"@,
        "+genpts+discardcorrupt+bitexact+igndts"@,
        "-flags:v"@,
        "+bitexact"@,
        "-flags:a"@,
        "+bitexact"@,
        "-i"@,
        "file:"@ + source,
        "-map"@,
        "0:v:0"@,
        "-map"@,
        "0:a:0?"@,
        "-sn"@,
        "-dn"@,
        "-map"@,
        "-0:s"@,
        "-map"@,
        "-0:d"@,
        "-map"@,
        "-0:t"@,
        "-map"@,
        "-0:v:m:attached_pic"@,
        "-map_metadata"@,
        "-1"@,
        "-map_metadata:s"@,
        "-1"@,
        "-map_chapters"@,
        "-1"@,
        "-avoid_negative_ts"@,
        "make_zero"@,
        "-vf"@,
        "scale=round(iw*if(sar\\,sar\\,1)/2)*2:round(ih/2)*2,setsar=1,format=yuv420p10le"@,
        "-c:v"@,
        "libx265"@,
        "-profile:v"@,
        "main10"@,
        "-pix_fmt"@,
        "yuv420p10le"@,
        "-udu_sei"@,
        "0"@,
        "-preset"@,
        "fast"@,
        "-g"@,
        "60"@,
        "-keyint_min"@,
        "60"@,
        "-crf"@,
        "16"@,
        "-x265-params"@,
        "no-info=1:pmode=1:limit-sao=1:cutree=1:rc-lookahead=30:bframes=4:b-adapt=2:psy-rd=1.0:psy-rdoq=0.5:open-gop=0"@,
        "-bsf:v"@,
        "filter_units=remove_types=35|38-40"@,
        "-c:a"@,
        "flac"@,
        "-ar"@,
        "48000"@,
        "-ac"@,
        "2"@,
        "-f"@,
        "matroska"@,
        dest,
    ]
}

/// The state of one re-encode.
#[derive(Debug, Clone, Copy, PartialEq, Eq, Structural)]
pub enum TaskStatus {
    Pending,
    Running,
    Completed,
    Failed,
}

/// One re-encode with its state.
#[derive(Debug)]
pub struct EncodingTask {
    pub source_path: String,
    pub destination_path: String,
    pub status: TaskStatus,
    pub error_message: Option<String>,
}

impl EncodingTask {
    /// Plans the re-encode of one scanned video.
    pub fn new(video_info: &VideoFileInfo) -> (r: EncodingTask)
        ensures
            r.source_path@ == video_info.path@,
            r.destination_path@ == spec_destination(video_info.path@),
            r.status == TaskStatus::Pending,
            r.error_message is None,
    {
        let cmd = FfmpegCommand::new(video_info.path.as_str());
        EncodingTask {
            source_path: video_info.path.clone(),
            destination_path: cmd.destination_path().to_owned(),
            status: TaskStatus::Pending,
            error_message: None,
        }
    }
}

/// The first task still waiting to run, in task order.
pub fn find_next_pending_task(tasks: &Vec<EncodingTask>) -> (r: Option<usize>)
    ensures
        match r {
            Some(i) => i < tasks@.len() && tasks@[i as int].status == TaskStatus::Pending && forall|
                k: int,
            |
                0 <= k < i ==> (#[trigger] tasks@[k]).status != TaskStatus::Pending,
            None => forall|k: int|
                0 <= k < tasks@.len() ==> (#[trigger] tasks@[k]).status != TaskStatus::Pending,
        },
{
    let mut i: usize = 0;
    while i < tasks.len()
        invariant
            i <= tasks@.len(),
            forall|k: int| 0 <= k < i ==> (#[trigger] tasks@[k]).status != TaskStatus::Pending,
        decreases tasks.len() - i,
    {
        if matches!(tasks[i].status, TaskStatus::Pending) {
            return Some(i);
        }
        i += 1;
    }
    None
}

/// Whether every task has reached a terminal state.
pub fn is_all_completed(tasks: &Vec<EncodingTask>) -> (r: bool)
    ensures
        r == forall|k: int|
            0 <= k < tasks@.len() ==> (#[trigger] tasks@[k]).status == TaskStatus::Completed
                || tasks@[k].status == TaskStatus::Failed,
{
    let mut i: usize = 0;
    while i < tasks.len()
        invariant
            i <= tasks@.len(),
            forall|k: int|
                0 <= k < i ==> (#[trigger] tasks@[k]).status == TaskStatus::Completed
                    || tasks@[k].status == TaskStatus::Failed,
        decreases tasks.len() - i,
    {
        let terminal = match tasks[i].status {
            TaskStatus::Completed => true,
            TaskStatus::Failed => true,
            _ => false,
        };
        if !terminal {
            return false;
        }
        i += 1;
    }
    true
}

/// A millisecond count as a clock reading, `HH:MM:SS`.
pub open spec fn spec_clock_text(ms: u64) -> Seq<char> {
    let secs = ms as int / 1000;
    crate::strfmt::spec_dec_pad2((secs / 3600) as nat) + seq![':'] + crate::strfmt::spec_dec_pad2(
        ((secs % 3600) / 60) as nat,
    ) + seq![':'] + crate::strfmt::spec_dec_pad2((secs % 60) as nat)
}

/// Renders a millisecond count as a clock reading, for progress display.
pub fn format_ms(ms: u64) -> (r: String)
    ensures
        r@ == spec_clock_text(ms),
{
    proof {
        reveal_strlit(":");
    }
    let secs = ms / 1000;
    let mut r = crate::strfmt::fmt_u64_pad2(secs / 3600);
    r.append(":");
    let minutes = crate::strfmt::fmt_u64_pad2((secs % 3600) / 60);
    r.append(minutes.as_str());
    r.append(":");
    let seconds = crate::strfmt::fmt_u64_pad2(secs % 60);
    r.append(seconds.as_str());
    proof {
        assert(r@ =~= spec_clock_text(ms));
    }
    r
}

/// The value of a digits-only field, or nothing when the field is empty,
/// holds a stray character, or exceeds the machine word.
pub open spec fn spec_u64_field(s: Seq<u8>) -> Option<int> {
    if s.len() >= 1 && (forall|k: int|
        0 <= k < s.len() ==> crate::scene_detector::spec_is_digit(#[trigger] s[k]))
        && crate::scene_detector::spec_digits_val(s) <= u64::MAX {
        Some(crate::scene_detector::spec_digits_val(s))
    } else {
        None
    }
}

/// Parses a digits-only field into a machine word.
fn parse_u64_field(bytes: &Vec<u8>, lo: usize, hi: usize) -> (r: Option<u64>)
    requires
        lo <= hi <= bytes@.len(),
    ensures
        match r {
            Some(w) => spec_u64_field(bytes@.subrange(lo as int, hi as int)) == Some(w as int),
            None => spec_u64_field(bytes@.subrange(lo as int, hi as int)) is None,
        },
{
    let ghost field = bytes@.subrange(lo as int, hi as int);
    if lo == hi {
        return None;
    }
    let mut acc: u64 = 0;
    let mut k: usize = lo;
    while k < hi
        invariant
            lo <= k <= hi,
            hi <= bytes@.len(),
            lo < hi,
            field == bytes@.subrange(lo as int, hi as int),
            forall|m: int|
                0 <= m < k - lo ==> crate::scene_detector::spec_is_digit(#[trigger] field[m]),
            acc as int == crate::scene_detector::spec_digits_val(field.take(k - lo)),
        decreases hi - k,
    {
        let b = bytes[k];
        if !(48 <= b && b <= 57) {
            proof {
                assert(field[k - lo] == bytes@[k as int]);
            }
            return None;
        }
        let d = (b - 48) as u64;
        proof {
            assert(field.take(k - lo + 1).drop_last() =~= field.take(k - lo));
            assert(field.take(k - lo + 1).last() == field[k - lo]);
            assert(field[k - lo] == bytes@[k as int]);
            lemma_digits_field_nonneg(field.take(k - lo));
        }
        if acc > (u64::MAX - d) / 10 {
            proof {
                assert(crate::scene_detector::spec_digits_val(field.take(k - lo + 1)) == acc as int
                    * 10 + d);
                assert(((u64::MAX - d) as int / 10 + 1) * 10 + d > u64::MAX) by (nonlinear_arith)
                    requires
                        0 <= d <= 9,
                ;
                assert(acc as int * 10 >= ((u64::MAX - d) as int / 10 + 1) * 10)
                    by (nonlinear_arith)
                    requires
                        acc as int >= (u64::MAX - d) as int / 10 + 1,
                ;
                if forall|w: int|
                    0 <= w < field.len() ==> crate::scene_detector::spec_is_digit(
                        #[trigger] field[w],
                    ) {
                    lemma_digits_prefix_le(field, k - lo + 1);
                    assert(crate::scene_detector::spec_digits_val(field) > u64::MAX);
                }
            }
            return None;
        }
        proof {
            assert(acc as int * 10 + d <= ((u64::MAX - d) as int / 10) * 10 + d)
                by (nonlinear_arith)
                requires
                    0 <= acc as int <= (u64::MAX - d) as int / 10,
            ;
            assert(((u64::MAX - d) as int / 10) * 10 <= (u64::MAX - d) as int) by {
                vstd::arithmetic::div_mod::lemma_fundamental_div_mod((u64::MAX - d) as int, 10);
            }
        }
        acc = acc * 10 + d;
        k += 1;
    }
    proof {
        assert(field.take(hi - lo) =~= field);
    }
    Some(acc)
}

/// A digit field is worth at least any of its prefixes.
proof fn lemma_digits_prefix_le(s: Seq<u8>, n: int)
    requires
        0 <= n <= s.len(),
        forall|k: int| 0 <= k < s.len() ==> crate::scene_detector::spec_is_digit(#[trigger] s[k]),
    ensures
        crate::scene_detector::spec_digits_val(s) >= crate::scene_detector::spec_digits_val(
            s.take(n),
        ),
    decreases s.len() - n,
{
    if n < s.len() {
        lemma_digits_prefix_le(s, n + 1);
        assert(s.take(n + 1).drop_last() =~= s.take(n));
        assert(s.take(n + 1).last() == s[n]);
        assert(forall|k: int|
            0 <= k < s.take(n).len() ==> crate::scene_detector::spec_is_digit(
                #[trigger] s.take(n)[k],
            ));
        lemma_digits_field_nonneg(s.take(n));
        assert(crate::scene_detector::spec_digits_val(s.take(n)) * 10
            >= crate::scene_detector::spec_digits_val(s.take(n))) by (nonlinear_arith)
            requires
                crate::scene_detector::spec_digits_val(s.take(n)) >= 0,
        ;
    } else {
        assert(s.take(n) =~= s);
    }
}

/// Digit fields have nonnegative value.
proof fn lemma_digits_field_nonneg(s: Seq<u8>)
    requires
        forall|k: int| 0 <= k < s.len() ==> crate::scene_detector::spec_is_digit(#[trigger] s[k]),
    ensures
        crate::scene_detector::spec_digits_val(s) >= 0,
    decreases s.len(),
{
    if s.len() > 0 {
        lemma_digits_field_nonneg(s.drop_last());
    }
}

/// The first colon at or after `i`, or the text's length.
pub open spec fn spec_colon_pos(s: Seq<u8>, i: int) -> int
    decreases s.len() - i,
{
    if i >= s.len() {
        s.len() as int
    } else if s[i] == 58 {
        i
    } else {
        spec_colon_pos(s, i + 1)
    }
}

/// The millisecond position named by an encoder progress value: either a
/// plain microsecond count, or a clock reading `H:M:S` with an optional
/// microsecond fraction.  Nothing when the text is neither, or a value
/// exceeds the machine word.
pub open spec fn spec_progress_ms(s: Seq<u8>) -> Option<int> {
    if spec_u64_field(s) is Some {
        Some(spec_u64_field(s).unwrap() / 1000)
    } else {
        let c1 = spec_colon_pos(s, 0);
        let c2 = spec_colon_pos(s, c1 + 1);
        if c1 < s.len() && c2 < s.len() && spec_colon_pos(s, c2 + 1) == s.len() {
            let h = spec_u64_field(s.subrange(0, c1));
            let m = spec_u64_field(s.subrange(c1 + 1, c2));
            let tail = s.subrange(c2 + 1, s.len() as int);
            let dot = crate::scene_detector::spec_dot_pos(tail, 0);
            let sec = if dot < tail.len() {
                spec_u64_field(tail.subrange(0, dot))
            } else {
                spec_u64_field(tail)
            };
            let micro = if dot < tail.len() {
                match spec_u64_field(tail.subrange(dot + 1, tail.len() as int)) {
                    Some(v) => v,
                    None => 0int,
                }
            } else {
                0int
            };
            if h is Some && m is Some && sec is Some {
                let total = (h.unwrap() * 3600 + m.unwrap() * 60 + sec.unwrap()) * 1000 + micro
                    / 1000;
                if total <= u64::MAX {
                    Some(total)
                } else {
                    None
                }
            } else {
                None
            }
        } else {
            None
        }
    }
}

/// Parses an encoder progress value into a millisecond position: a plain
/// microsecond count, or a clock reading with an optional fraction.
pub fn parse_out_time_ms(raw: &str) -> (r: Option<u64>)
    ensures
        match r {
            Some(w) => spec_progress_ms(raw.spec_bytes()) == Some(w as int),
            None => spec_progress_ms(raw.spec_bytes()) is None,
        },
{
    let bytes: Vec<u8> = raw.as_bytes_vec();
    let n = bytes.len();
    if let Some(us) = parse_u64_field(&bytes, 0, n) {
        proof {
            assert(bytes@.subrange(0, n as int) =~= bytes@);
        }
        return Some(us / 1000);
    }
    proof {
        assert(bytes@.subrange(0, n as int) =~= bytes@);
    }
    let c1 = colon_scan(&bytes, 0);
    if c1 == n {
        return None;
    }
    let c2 = colon_scan(&bytes, c1 + 1);
    if c2 == n {
        return None;
    }
    let c3 = colon_scan(&bytes, c2 + 1);
    if c3 != n {
        return None;
    }
    let h = match parse_u64_field(&bytes, 0, c1) {
        Some(v) => v,
        None => {
            return None;
        },
    };
    let m = match parse_u64_field(&bytes, c1 + 1, c2) {
        Some(v) => v,
        None => {
            return None;
        },
    };
    let ghost tail = bytes@.subrange(c2 as int + 1, n as int);
    let mut dot: usize = c2 + 1;
    while dot < n && bytes[dot] != 46
        invariant
            c2 + 1 <= dot <= n,
            n == bytes@.len(),
            c2 + 1 <= n,
            tail == bytes@.subrange(c2 as int + 1, n as int),
            crate::scene_detector::spec_dot_pos(tail, 0) == crate::scene_detector::spec_dot_pos(
                tail,
                dot - (c2 + 1),
            ),
            forall|m2: int| 0 <= m2 < tail.len() ==> tail[m2] == bytes@[c2 + 1 + m2],
        decreases n - dot,
    {
        dot += 1;
    }
    proof {
        if dot < n {
            assert(tail[dot - (c2 + 1)] == 46);
            assert(crate::scene_detector::spec_dot_pos(tail, dot - (c2 + 1)) == dot - (c2 + 1));
        } else {
            assert(crate::scene_detector::spec_dot_pos(tail, dot - (c2 + 1)) == tail.len());
        }
    }
    let sec_end = if dot < n {
        dot
    } else {
        n
    };
    let sec = match parse_u64_field(&bytes, c2 + 1, sec_end) {
        Some(v) => v,
        None => {
            proof {
                assert(bytes@.subrange(c2 as int + 1, sec_end as int) =~= (if dot < n {
                    tail.subrange(0, crate::scene_detector::spec_dot_pos(tail, 0))
                } else {
                    tail
                }));
            }
            return None;
        },
    };
    proof {
        assert(bytes@.subrange(c2 as int + 1, sec_end as int) =~= (if dot < n {
            tail.subrange(0, crate::scene_detector::spec_dot_pos(tail, 0))
        } else {
            tail
        }));
    }
    let micro: u64 = if dot < n {
        proof {
            assert(bytes@.subrange(dot as int + 1, n as int) =~= tail.subrange(
                crate::scene_detector::spec_dot_pos(tail, 0) + 1,
                tail.len() as int,
            ));
        }
        match parse_u64_field(&bytes, dot + 1, n) {
            Some(v) => v,
            None => 0,
        }
    } else {
        0
    };
    let total128: u128 = ((h as u128) * 3600 + (m as u128) * 60 + (sec as u128)) * 1000 + (micro
        as u128) / 1000;
    proof {
        assert((h as int) * 3600 <= 0xFFFF_FFFF_FFFF_FFFF * 3600 && (m as int) * 60
            <= 0xFFFF_FFFF_FFFF_FFFF * 60) by (nonlinear_arith)
            requires
                0 <= h as int <= 0xFFFF_FFFF_FFFF_FFFF,
                0 <= m as int <= 0xFFFF_FFFF_FFFF_FFFF,
        ;
        assert(((h as int) * 3600 + (m as int) * 60 + (sec as int)) * 1000 <= (
        0xFFFF_FFFF_FFFF_FFFF * 3600 + 0xFFFF_FFFF_FFFF_FFFF * 60 + 0xFFFF_FFFF_FFFF_FFFF) * 1000)
            by (nonlinear_arith)
            requires
                0 <= (h as int) * 3600 <= 0xFFFF_FFFF_FFFF_FFFF * 3600,
                0 <= (m as int) * 60 <= 0xFFFF_FFFF_FFFF_FFFF * 60,
                0 <= sec as int <= 0xFFFF_FFFF_FFFF_FFFF,
        ;
    }
    if total128 > u64::MAX as u128 {
        return None;
    }
    Some(total128 as u64)
}

/// The first colon at or after `from`, or the text's length.
fn colon_scan(bytes: &Vec<u8>, from: usize) -> (r: usize)
    requires
        from <= bytes@.len(),
    ensures
        r as int == spec_colon_pos(bytes@, from as int),
        from <= r <= bytes@.len(),
{
    let n = bytes.len();
    let mut i: usize = from;
    while i < n && bytes[i] != 58
        invariant
            from <= i <= n,
            n == bytes@.len(),
            spec_colon_pos(bytes@, from as int) == spec_colon_pos(bytes@, i as int),
        decreases n - i,
    {
        i += 1;
    }
    proof {
        if i < n {
            assert(spec_colon_pos(bytes@, i as int) == i);
        } else {
            assert(spec_colon_pos(bytes@, i as int) == n);
        }
    }
    i
}

/// The re-encoding run: the configuration it works under.
pub struct VideoEncoder {
    pub config: Config,
}

impl VideoEncoder {
    /// Wraps the configuration for one run.
    pub fn new(config: Config) -> (r: VideoEncoder)
        ensures
            r.config == config,
    {
        VideoEncoder { config }
    }
}

} // verus!
