//! Batched frame extraction with a three-tier fallback chain.
//!
//! Up to [`BATCH_SIZE`] timestamps are served by one external invocation
//! whose frame-selection filter is a disjunction of small time windows.
//! The verified side plans the chunks, builds every filter expression and
//! argument vector, decides the fallback action of each frame — keep the
//! batch frame, re-extract singly, or (when the whole batch invocation
//! failed) re-extract singly with a solid-colour placeholder as the last
//! resort — and accounts the results.  The unverified runner only spawns
//! the invocations and reports what it observed.

use vstd::prelude::*;

use crate::contact_sheet_merger::spec_views;
use crate::strfmt::{fmt_ms3, fmt_u64, fmt_u64_pad3, spec_dec, spec_dec_pad3, spec_ms3};
use crate::thumbnail_extractor::{
    build_scale_filter, spec_coarse_seek, spec_scale_filter, spec_thumb_path, thumb_path,
    two_stage_seek,
};
use crate::{THUMBNAIL_HEIGHT, THUMBNAIL_WIDTH};

verus! {

/// Most timestamps served by one batch invocation; more would make the
/// selection filter expression unwieldy.
pub const BATCH_SIZE: usize = 18;

/// Half-width of the time window around each target in the selection
/// filter, in milliseconds.
pub const SELECT_WINDOW_MS: u64 = 50;

/// Sizing and quality of the extracted frames.  `quality` is the
/// encoder's scale where smaller is better.
#[derive(Debug, Clone, Copy, PartialEq, Eq, Structural)]
pub struct BatchExtractorConfig {
    pub width: u32,
    pub height: u32,
    pub quality: u8,
}

impl core::default::Default for BatchExtractorConfig {
    /// The default configuration: thumbnail tile size, near-best quality.
    fn default() -> (r: BatchExtractorConfig)
        ensures
            r.width == THUMBNAIL_WIDTH,
            r.height == THUMBNAIL_HEIGHT,
            r.quality == 2,
    {
        BatchExtractorConfig { width: THUMBNAIL_WIDTH, height: THUMBNAIL_HEIGHT, quality: 2 }
    }
}

/// The outcome of one batch run: frame paths of the filled positions in
/// order, and how many positions ended with and without a frame.
#[derive(Debug)]
pub struct BatchExtractionResult {
    pub thumbnail_paths: Vec<String>,
    pub success_count: usize,
    pub failed_count: usize,
}

/// What the runner observed of one batch invocation over a chunk.
#[derive(Debug)]
pub enum ChunkOutcome {
    /// The invocation failed as a whole: nonzero exit, or it never ran.
    BatchFailed,
    /// The invocation succeeded; flag `i` tells whether the numbered
    /// output frame of position `i` exists under its final name.
    BatchProduced(Vec<bool>),
}

/// The fallback action owed to one position of a chunk.
#[derive(Debug, Clone, Copy, PartialEq, Eq, Structural)]
pub enum FrameAction {
    /// The batch produced this frame; nothing more to do.
    KeepBatchFrame,
    /// The batch under-fired on this frame alone: one single extraction,
    /// with no further fallback.
    SingleOnly,
    /// The whole batch failed: one single extraction, and on failure a
    /// solid-colour placeholder so the sheet can still be assembled.
    SingleThenPlaceholder,
}

/// One selection window: `between(t\,lo\,hi)` around the target.
pub open spec fn spec_between(ts: u64) -> Seq<char> {
    let lo = if ts >= SELECT_WINDOW_MS {
        (ts - SELECT_WINDOW_MS) as u64
    } else {
        0u64
    };
    let hi = if ts <= u64::MAX - SELECT_WINDOW_MS {
        (ts + SELECT_WINDOW_MS) as u64
    } else {
        u64::MAX
    };
    "between(t\\,"@ + spec_ms3(lo as nat) + "\\,"@ + spec_ms3(hi as nat) + ")"@
}

/// The `+`-joined windows of the first `n` timestamps.
pub open spec fn spec_between_sum(ts: Seq<u64>, n: int) -> Seq<char>
    decreases n,
{
    if n <= 0 {
        Seq::empty()
    } else if n == 1 {
        spec_between(ts[0])
    } else {
        spec_between_sum(ts, n - 1) + seq!['+'] + spec_between(ts[n - 1])
    }
}

/// The whole selection filter of a chunk.
pub open spec fn spec_select_expr(ts: Seq<u64>) -> Seq<char> {
    "select='"@ + spec_between_sum(ts, ts.len() as int) + "'"@
}

/// Builds one selection window.
fn build_between(ts: u64) -> (r: String)
    ensures
        r@ == spec_between(ts),
{
    let lo: u64 = if ts >= SELECT_WINDOW_MS {
        ts - SELECT_WINDOW_MS
    } else {
        0
    };
    let hi: u64 = if ts <= u64::MAX - SELECT_WINDOW_MS {
        ts + SELECT_WINDOW_MS
    } else {
        u64::MAX
    };
    let mut s = "between(t\\,".to_owned();
    let lo_text = fmt_ms3(lo);
    s.append(lo_text.as_str());
    s.append("\\,");
    let hi_text = fmt_ms3(hi);
    s.append(hi_text.as_str());
    s.append(")");
    proof {
        assert(s@ =~= spec_between(ts));
    }
    s
}

/// Builds the disjunctive frame-selection filter of a chunk: one small
/// time window per target timestamp, joined by logical OR.
pub fn build_select_expression(timestamps: &Vec<u64>) -> (r: String)
    ensures
        r@ == spec_select_expr(timestamps@),
{
    let mut s = "select='".to_owned();
    let ghost opened = s@;
    let mut i: usize = 0;
    proof {
        assert(s@ =~= opened + spec_between_sum(timestamps@, 0));
    }
    while i < timestamps.len()
        invariant
            i <= timestamps@.len(),
            opened == "select='"@,
            s@ == opened + spec_between_sum(timestamps@, i as int),
        decreases timestamps.len() - i,
    {
        proof {
            reveal_strlit("+");
        }
        if i > 0 {
            s.append("+");
        }
        let w = build_between(timestamps[i]);
        s.append(w.as_str());
        proof {
            if i == 0 {
                assert(s@ =~= opened + spec_between_sum(timestamps@, 1));
            } else {
                assert(s@ =~= opened + (spec_between_sum(timestamps@, i as int) + seq!['+']
                    + spec_between(timestamps@[i as int])));
                assert(s@ =~= opened + spec_between_sum(timestamps@, i as int + 1));
            }
        }
        i += 1;
    }
    s.append("'");
    proof {
        assert(s@ =~= spec_select_expr(timestamps@));
    }
    s
}

/// The numbered-output pattern of chunk `chunk_index`, as handed to the
/// external tool: `thumb_<chunk, three digits>_%03d.jpg` below `dir`.
pub open spec fn spec_batch_pattern(dir: Seq<char>, chunk_index: int) -> Seq<char> {
    dir + "/thumb_"@ + spec_dec_pad3(chunk_index as nat) + "_%03d.jpg"@
}

/// The name the tool gives the `i`-th frame of chunk `chunk_index`
/// (its numbering is 1-based), before it is renamed to its final name.
pub open spec fn spec_batch_output(dir: Seq<char>, chunk_index: int, i: int) -> Seq<char> {
    dir + "/thumb_"@ + spec_dec_pad3(chunk_index as nat) + "_"@ + spec_dec_pad3((i + 1) as nat)
        + ".jpg"@
}

/// Builds the numbered-output pattern of a chunk.
pub fn batch_pattern(output_dir: &str, chunk_index: usize) -> (r: String)
    ensures
        r@ == spec_batch_pattern(output_dir@, chunk_index as int),
{
    let mut s = output_dir.to_owned();
    s.append("/thumb_");
    let digits = fmt_u64_pad3(chunk_index as u64);
    s.append(digits.as_str());
    s.append("_%03d.jpg");
    proof {
        assert(s@ =~= spec_batch_pattern(output_dir@, chunk_index as int));
    }
    s
}

/// Builds the pre-rename path of the `i`-th frame of a chunk.
pub fn batch_output_path(output_dir: &str, chunk_index: usize, i: usize) -> (r: String)
    requires
        i < usize::MAX,
    ensures
        r@ == spec_batch_output(output_dir@, chunk_index as int, i as int),
{
    let mut s = output_dir.to_owned();
    s.append("/thumb_");
    let chunk_digits = fmt_u64_pad3(chunk_index as u64);
    s.append(chunk_digits.as_str());
    s.append("_");
    let frame_digits = fmt_u64_pad3((i + 1) as u64);
    s.append(frame_digits.as_str());
    s.append(".jpg");
    proof {
        assert(s@ =~= spec_batch_output(output_dir@, chunk_index as int, i as int));
    }
    s
}

/// The full argument vector of one batch invocation.
pub open spec fn spec_batch_args(
    video: Seq<char>,
    ts: Seq<u64>,
    pattern: Seq<char>,
    config: BatchExtractorConfig,
) -> Seq<Seq<char>> {
    seq!["-hide_banner"@, "-loglevel"@, "error"@, "-i"@, video, "-vf"@, spec_select_expr(ts)
        + seq![','] + spec_scale_filter(config.width, config.height), "-vsync"@, "vfr"@, "-q:v"@, spec_dec(
        config.quality as nat,
    ), "-y"@, pattern]
}

/// Builds the argument vector of one batch invocation over a chunk.
pub fn batch_args(
    video_path: &str,
    timestamps: &Vec<u64>,
    output_dir: &str,
    chunk_index: usize,
    config: &BatchExtractorConfig,
) -> (r: Vec<String>)
    ensures
        spec_views(r@) == spec_batch_args(
            video_path@,
            timestamps@,
            spec_batch_pattern(output_dir@, chunk_index as int),
            *config,
        ),
{
    proof {
        reveal_strlit(",");
    }
    let mut filter = build_select_expression(timestamps);
    filter.append(",");
    let scale = build_scale_filter(config.width, config.height);
    filter.append(scale.as_str());
    proof {
        assert(filter@ =~= spec_select_expr(timestamps@) + seq![','] + spec_scale_filter(
            config.width,
            config.height,
        ));
    }
    let mut args: Vec<String> = Vec::new();
    args.push("-hide_banner".to_owned());
    args.push("-loglevel".to_owned());
    args.push("error".to_owned());
    args.push("-i".to_owned());
    args.push(video_path.to_owned());
    args.push("-vf".to_owned());
    args.push(filter);
    args.push("-vsync".to_owned());
    args.push("vfr".to_owned());
    args.push("-q:v".to_owned());
    args.push(fmt_u64(config.quality as u64));
    args.push("-y".to_owned());
    args.push(batch_pattern(output_dir, chunk_index));
    proof {
        assert(spec_views(args@) =~= spec_batch_args(
            video_path@,
            timestamps@,
            spec_batch_pattern(output_dir@, chunk_index as int),
            *config,
        ));
    }
    args
}

/// The argument vector of one single extraction on the batch path:
/// two-stage seek, letterboxed scale, one frame.
pub open spec fn spec_batch_single_args(
    video: Seq<char>,
    ts: u64,
    out: Seq<char>,
    config: BatchExtractorConfig,
) -> Seq<Seq<char>> {
    let t0 = spec_coarse_seek(ts);
    let delta = (ts - t0) as u64;
    seq!["-hide_banner"@, "-loglevel"@, "error"@] + (if t0 > 0 {
        seq!["-ss"@, spec_ms3(t0 as nat)]
    } else {
        Seq::empty()
    }) + seq!["-i"@, video] + (if delta > 0 {
        seq!["-ss"@, spec_ms3(delta as nat)]
    } else {
        Seq::empty()
    }) + seq![
        "-frames:v"@,
        "1"@,
        "-vf"@,
        spec_scale_filter(config.width, config.height),
        "-q:v"@,
        spec_dec(config.quality as nat),
        "-y"@,
        out,
    ]
}

/// Builds the argument vector of one single extraction on the batch path.
pub fn batch_single_args(
    video_path: &str,
    timestamp_ms: u64,
    output_path: &str,
    config: &BatchExtractorConfig,
) -> (r: Vec<String>)
    ensures
        spec_views(r@) == spec_batch_single_args(video_path@, timestamp_ms, output_path@, *config),
{
    let (t0, delta) = two_stage_seek(timestamp_ms);
    let mut args: Vec<String> = Vec::new();
    args.push("-hide_banner".to_owned());
    args.push("-loglevel".to_owned());
    args.push("error".to_owned());
    if t0 > 0 {
        args.push("-ss".to_owned());
        args.push(fmt_ms3(t0));
    }
    args.push("-i".to_owned());
    args.push(video_path.to_owned());
    if delta > 0 {
        args.push("-ss".to_owned());
        args.push(fmt_ms3(delta));
    }
    args.push("-frames:v".to_owned());
    args.push("1".to_owned());
    args.push("-vf".to_owned());
    args.push(build_scale_filter(config.width, config.height));
    args.push("-q:v".to_owned());
    args.push(fmt_u64(config.quality as u64));
    args.push("-y".to_owned());
    args.push(output_path.to_owned());
    proof {
        assert(spec_views(args@) =~= spec_batch_single_args(
            video_path@,
            timestamp_ms,
            output_path@,
            *config,
        ));
    }
    args
}

/// The source description of the solid-colour placeholder frame.
pub open spec fn spec_placeholder_source(config: BatchExtractorConfig) -> Seq<char> {
    "color=c=black:s="@ + spec_dec(config.width as nat) + seq!['x'] + spec_dec(config.height as nat)
        + ":d=1"@
}

/// The argument vector of one placeholder generation.
pub open spec fn spec_placeholder_args(out: Seq<char>, config: BatchExtractorConfig) -> Seq<
    Seq<char>,
> {
    seq![
        "-hide_banner"@,
        "-loglevel"@,
        "error"@,
        "-f"@,
        "lavfi"@,
        "-i"@,
        spec_placeholder_source(config),
        "-frames:v"@,
        "1"@,
        "-q:v"@,
        spec_dec(config.quality as nat),
        "-y"@,
        out,
    ]
}

/// Builds the argument vector that synthesises a solid-colour placeholder
/// frame, the last resort when a timestamp cannot be extracted at all.
pub fn placeholder_args(output_path: &str, config: &BatchExtractorConfig) -> (r: Vec<String>)
    ensures
        spec_views(r@) == spec_placeholder_args(output_path@, *config),
{
    proof {
        reveal_strlit("x");
    }
    let mut source = "color=c=black:s=".to_owned();
    let ws = fmt_u64(config.width as u64);
    source.append(ws.as_str());
    source.append("x");
    let hs = fmt_u64(config.height as u64);
    source.append(hs.as_str());
    source.append(":d=1");
    proof {
        assert(source@ =~= spec_placeholder_source(*config));
    }
    let mut args: Vec<String> = Vec::new();
    args.push("-hide_banner".to_owned());
    args.push("-loglevel".to_owned());
    args.push("error".to_owned());
    args.push("-f".to_owned());
    args.push("lavfi".to_owned());
    args.push("-i".to_owned());
    args.push(source);
    args.push("-frames:v".to_owned());
    args.push("1".to_owned());
    args.push("-q:v".to_owned());
    args.push(fmt_u64(config.quality as u64));
    args.push("-y".to_owned());
    args.push(output_path.to_owned());
    proof {
        assert(spec_views(args@) =~= spec_placeholder_args(output_path@, *config));
    }
    args
}

/// Splits the timestamps into chunks of at most [`BATCH_SIZE`]: chunk `k`
/// holds positions `k * BATCH_SIZE ..` of the input, in order.
pub fn chunk_timestamps(timestamps: &Vec<u64>) -> (r: Vec<Vec<u64>>)
    ensures
        r@.len() == (timestamps@.len() as int + BATCH_SIZE - 1) / BATCH_SIZE as int,
        forall|k: int|
            0 <= k < r@.len() ==> (#[trigger] r@[k])@ == timestamps@.subrange(
                k * BATCH_SIZE,
                if (k + 1) * BATCH_SIZE <= timestamps@.len() {
                    (k + 1) * BATCH_SIZE
                } else {
                    timestamps@.len() as int
                },
            ),
{
    let ghost n = timestamps@.len() as int;
    let ghost b = BATCH_SIZE as int;
    let mut r: Vec<Vec<u64>> = Vec::new();
    let mut start: usize = 0;
    while start < timestamps.len()
        invariant
            n == timestamps@.len(),
            b == BATCH_SIZE,
            start <= timestamps@.len(),
            start < timestamps@.len() ==> start == r@.len() * b,
            start == timestamps@.len() && n > 0 ==> r@.len() == (n + b - 1) / b,
            n == 0 ==> r@.len() == 0,
            forall|k: int|
                0 <= k < r@.len() ==> (#[trigger] r@[k])@ == timestamps@.subrange(
                    k * b,
                    if (k + 1) * b <= n {
                        (k + 1) * b
                    } else {
                        n
                    },
                ),
        decreases timestamps.len() - start,
    {
        let stop: usize = if timestamps.len() - start > BATCH_SIZE {
            start + BATCH_SIZE
        } else {
            timestamps.len()
        };
        let mut chunk: Vec<u64> = Vec::new();
        let mut i: usize = start;
        while i < stop
            invariant
                start <= i <= stop,
                stop <= timestamps@.len(),
                chunk@ == timestamps@.subrange(start as int, i as int),
            decreases stop - i,
        {
            chunk.push(timestamps[i]);
            proof {
                assert(chunk@ =~= timestamps@.subrange(start as int, i as int + 1));
            }
            i += 1;
        }
        let ghost c = r@.len() as int;
        proof {
            assert(start == c * b);
            assert((c + 1) * b == c * b + b) by (nonlinear_arith);
        }
        r.push(chunk);
        proof {
            assert(r@[c]@ == timestamps@.subrange(
                c * b,
                if (c + 1) * b <= n {
                    (c + 1) * b
                } else {
                    n
                },
            ));
            if stop as int == n {
                let rem = n - 1 - c * b;
                assert(0 <= rem < b);
                vstd::arithmetic::div_mod::lemma_fundamental_div_mod_converse(
                    n + b - 1,
                    b,
                    c + 1,
                    rem,
                );
                assert(r@.len() == (n + b - 1) / b);
            }
        }
        start = stop;
    }
    proof {
        if n == 0 {
            assert(r@.len() == 0);
            assert((n + b - 1) / b == 0) by {
                vstd::arithmetic::div_mod::lemma_fundamental_div_mod_converse(n + b - 1, b, 0, b
                    - 1);
            }
        }
    }
    r
}

/// Whether outcome `o` reports a whole-batch failure.
pub open spec fn spec_outcome_failed(o: ChunkOutcome) -> bool {
    o is BatchFailed
}

/// The per-position frame flags of outcome `o` (empty on failure).
pub open spec fn spec_outcome_flags(o: ChunkOutcome) -> Seq<bool> {
    match o {
        ChunkOutcome::BatchFailed => Seq::empty(),
        ChunkOutcome::BatchProduced(flags) => flags@,
    }
}

/// Whether position `i` of a chunk ended with a frame: the batch
/// produced it, or its fallback did.
pub open spec fn spec_position_filled(
    batch_failed: bool,
    flags: Seq<bool>,
    fallback_ok: Seq<bool>,
    i: int,
) -> bool {
    if batch_failed {
        fallback_ok[i]
    } else {
        flags[i] || fallback_ok[i]
    }
}

/// How many of the first `n` positions ended with a frame.
pub open spec fn spec_count_filled(
    batch_failed: bool,
    flags: Seq<bool>,
    fallback_ok: Seq<bool>,
    n: int,
) -> int
    decreases n,
{
    if n <= 0 {
        0int
    } else {
        spec_count_filled(batch_failed, flags, fallback_ok, n - 1) + (if spec_position_filled(
            batch_failed,
            flags,
            fallback_ok,
            n - 1,
        ) {
            1int
        } else {
            0int
        })
    }
}

/// The final frame paths of the filled positions among the first `n`,
/// in position order.
pub open spec fn spec_filled_paths(
    dir: Seq<char>,
    start_index: int,
    batch_failed: bool,
    flags: Seq<bool>,
    fallback_ok: Seq<bool>,
    n: int,
) -> Seq<Seq<char>>
    decreases n,
{
    if n <= 0 {
        Seq::empty()
    } else {
        spec_filled_paths(dir, start_index, batch_failed, flags, fallback_ok, n - 1) + (
        if spec_position_filled(batch_failed, flags, fallback_ok, n - 1) {
            seq![spec_thumb_path(dir, start_index + n - 1)]
        } else {
            Seq::empty()
        })
    }
}

/// Decides the fallback action of every position of a chunk.  A failed
/// batch sends every position through single extraction with the
/// placeholder as last resort; a successful batch keeps the produced
/// frames and re-extracts only the missing ones, with no placeholder.
pub fn chunk_fallback_actions(chunk_len: usize, outcome: &ChunkOutcome) -> (r: Vec<FrameAction>)
    requires
        spec_outcome_failed(*outcome) || spec_outcome_flags(*outcome).len() == chunk_len,
    ensures
        r@.len() == chunk_len,
        forall|i: int|
            0 <= i < chunk_len ==> r@[i] == (if spec_outcome_failed(*outcome) {
                FrameAction::SingleThenPlaceholder
            } else if spec_outcome_flags(*outcome)[i] {
                FrameAction::KeepBatchFrame
            } else {
                FrameAction::SingleOnly
            }),
{
    let mut r: Vec<FrameAction> = Vec::new();
    let mut i: usize = 0;
    while i < chunk_len
        invariant
            i <= chunk_len,
            spec_outcome_failed(*outcome) || spec_outcome_flags(*outcome).len() == chunk_len,
            r@.len() == i,
            forall|j: int|
                0 <= j < i ==> r@[j] == (if spec_outcome_failed(*outcome) {
                    FrameAction::SingleThenPlaceholder
                } else if spec_outcome_flags(*outcome)[j] {
                    FrameAction::KeepBatchFrame
                } else {
                    FrameAction::SingleOnly
                }),
        decreases chunk_len - i,
    {
        let action = match outcome {
            ChunkOutcome::BatchFailed => FrameAction::SingleThenPlaceholder,
            ChunkOutcome::BatchProduced(flags) => {
                if flags[i] {
                    FrameAction::KeepBatchFrame
                } else {
                    FrameAction::SingleOnly
                }
            },
        };
        r.push(action);
        i += 1;
    }
    r
}

/// Accounts one chunk after all fallbacks ran: position `i` of the chunk
/// counts as successful exactly when the batch produced its frame or its
/// fallback (`fallback_ok[i]`) did, and the paths of the successful
/// positions are collected in position order under their final names.
pub fn chunk_result(
    start_index: usize,
    chunk_len: usize,
    output_dir: &str,
    outcome: &ChunkOutcome,
    fallback_ok: &Vec<bool>,
) -> (r: BatchExtractionResult)
    requires
        fallback_ok@.len() == chunk_len,
        spec_outcome_failed(*outcome) || spec_outcome_flags(*outcome).len() == chunk_len,
        start_index + chunk_len <= usize::MAX,
    ensures
        r.success_count == spec_count_filled(
            spec_outcome_failed(*outcome),
            spec_outcome_flags(*outcome),
            fallback_ok@,
            chunk_len as int,
        ),
        r.success_count + r.failed_count == chunk_len,
        spec_views(r.thumbnail_paths@) == spec_filled_paths(
            output_dir@,
            start_index as int,
            spec_outcome_failed(*outcome),
            spec_outcome_flags(*outcome),
            fallback_ok@,
            chunk_len as int,
        ),
{
    let ghost failed = spec_outcome_failed(*outcome);
    let ghost flags = spec_outcome_flags(*outcome);
    let mut paths: Vec<String> = Vec::new();
    let mut success: usize = 0;
    let mut i: usize = 0;
    proof {
        assert(spec_views(paths@) =~= spec_filled_paths(
            output_dir@,
            start_index as int,
            failed,
            flags,
            fallback_ok@,
            0,
        ));
    }
    while i < chunk_len
        invariant
            i <= chunk_len,
            fallback_ok@.len() == chunk_len,
            failed == spec_outcome_failed(*outcome),
            flags == spec_outcome_flags(*outcome),
            failed || flags.len() == chunk_len,
            start_index + chunk_len <= usize::MAX,
            success <= i,
            success as int == spec_count_filled(failed, flags, fallback_ok@, i as int),
            spec_views(paths@) == spec_filled_paths(
                output_dir@,
                start_index as int,
                failed,
                flags,
                fallback_ok@,
                i as int,
            ),
        decreases chunk_len - i,
    {
        let produced = match outcome {
            ChunkOutcome::BatchFailed => false,
            ChunkOutcome::BatchProduced(flags_vec) => flags_vec[i],
        };
        let filled = produced || fallback_ok[i];
        assert(filled == spec_position_filled(failed, flags, fallback_ok@, i as int));
        if filled {
            let p = thumb_path(output_dir, start_index + i);
            paths.push(p);
            success += 1;
        }
        proof {
            assert(spec_views(paths@) =~= spec_filled_paths(
                output_dir@,
                start_index as int,
                failed,
                flags,
                fallback_ok@,
                i as int + 1,
            ));
        }
        i += 1;
    }
    BatchExtractionResult { thumbnail_paths: paths, success_count: success, failed_count: chunk_len
        - success }
}

/// The full fallback loses nothing: when the whole batch invocation
/// failed, every position of the chunk goes through single extraction,
/// and if each of those extractions succeeds on its own, every one of
/// the chunk's timestamps still ends with a frame.
pub proof fn lemma_full_fallback_recovers(flags: Seq<bool>, fallback_ok: Seq<bool>, n: int)
    requires
        0 <= n <= fallback_ok.len(),
        forall|i: int| 0 <= i < n ==> fallback_ok[i],
    ensures
        spec_count_filled(true, flags, fallback_ok, n) == n,
    decreases n,
{
    if n > 0 {
        lemma_full_fallback_recovers(flags, fallback_ok, n - 1);
    }
}

/// The sum of the success counters of the first `n` parts.
pub open spec fn spec_sum_success(parts: Seq<BatchExtractionResult>, n: int) -> int
    decreases n,
{
    if n <= 0 {
        0int
    } else {
        spec_sum_success(parts, n - 1) + parts[n - 1].success_count
    }
}

/// The sum of the failure counters of the first `n` parts.
pub open spec fn spec_sum_failed(parts: Seq<BatchExtractionResult>, n: int) -> int
    decreases n,
{
    if n <= 0 {
        0int
    } else {
        spec_sum_failed(parts, n - 1) + parts[n - 1].failed_count
    }
}

/// The concatenated frame paths of the first `n` parts, in order.
pub open spec fn spec_concat_paths(parts: Seq<BatchExtractionResult>, n: int) -> Seq<Seq<char>>
    decreases n,
{
    if n <= 0 {
        Seq::empty()
    } else {
        spec_concat_paths(parts, n - 1) + spec_views(parts[n - 1].thumbnail_paths@)
    }
}

/// Combines the per-chunk results of one batch run: counters are summed
/// and the frame paths concatenated in chunk order.  A run cut short by
/// the shutdown flag simply hands in fewer parts.
pub fn combine_batch_results(parts: Vec<BatchExtractionResult>) -> (r: BatchExtractionResult)
    requires
        spec_sum_success(parts@, parts@.len() as int) <= usize::MAX,
        spec_sum_failed(parts@, parts@.len() as int) <= usize::MAX,
    ensures
        r.success_count == spec_sum_success(parts@, parts@.len() as int),
        r.failed_count == spec_sum_failed(parts@, parts@.len() as int),
        spec_views(r.thumbnail_paths@) == spec_concat_paths(parts@, parts@.len() as int),
{
    let ghost all = parts@;
    let mut paths: Vec<String> = Vec::new();
    let mut success: usize = 0;
    let mut failed: usize = 0;
    let mut k: usize = 0;
    let mut rest = parts;
    proof {
        assert(spec_views(paths@) =~= spec_concat_paths(all, 0));
    }
    while k < rest.len()
        invariant
            k <= rest@.len(),
            rest@ == all,
            spec_sum_success(all, all.len() as int) <= usize::MAX,
            spec_sum_failed(all, all.len() as int) <= usize::MAX,
            success as int == spec_sum_success(all, k as int),
            failed as int == spec_sum_failed(all, k as int),
            spec_views(paths@) == spec_concat_paths(all, k as int),
        decreases rest.len() - k,
    {
        proof {
            lemma_sum_success_mono(all, k as int + 1, all.len() as int);
            lemma_sum_failed_mono(all, k as int + 1, all.len() as int);
        }
        let part = &rest[k];
        success += part.success_count;
        failed += part.failed_count;
        let mut j: usize = 0;
        let ghost before = paths@;
        while j < part.thumbnail_paths.len()
            invariant
                j <= part.thumbnail_paths@.len(),
                part == rest@[k as int],
                k < rest@.len(),
                spec_views(paths@) == spec_views(before) + spec_views(
                    part.thumbnail_paths@.take(j as int),
                ),
            decreases part.thumbnail_paths.len() - j,
        {
            let item = part.thumbnail_paths[j].clone();
            let ghost oldp = paths@;
            paths.push(item);
            proof {
                let taken = part.thumbnail_paths@.take(j as int + 1);
                let rhs = spec_views(before) + spec_views(taken);
                assert(spec_views(paths@).len() == paths@.len());
                assert(spec_views(before).len() == before.len());
                assert(spec_views(taken).len() == j + 1);
                assert(spec_views(oldp).len() == oldp.len());
                assert(spec_views(part.thumbnail_paths@.take(j as int)).len() == j as int);
                assert(oldp.len() == before.len() + j);
                assert forall|p: int| 0 <= p < paths@.len() implies spec_views(paths@)[p]
                    == rhs[p] by {
                    assert(spec_views(paths@)[p] == paths@[p]@);
                    if p < oldp.len() {
                        assert(paths@[p] == oldp[p]);
                        assert(spec_views(oldp)[p] == oldp[p]@);
                        if p < before.len() {
                            assert(spec_views(before)[p] == before[p]@);
                        } else {
                            let q = p - before.len();
                            assert(spec_views(part.thumbnail_paths@.take(j as int))[q]
                                == part.thumbnail_paths@.take(j as int)[q]@);
                            assert(spec_views(taken)[q] == taken[q]@);
                            assert(taken[q] == part.thumbnail_paths@[q]);
                            assert(part.thumbnail_paths@.take(j as int)[q]
                                == part.thumbnail_paths@[q]);
                        }
                    } else {
                        assert(paths@[p] == part.thumbnail_paths@[j as int]);
                        assert(spec_views(taken)[j as int] == taken[j as int]@);
                        assert(taken[j as int] == part.thumbnail_paths@[j as int]);
                    }
                }
                assert(spec_views(paths@) =~= rhs);
            }
            j += 1;
        }
        proof {
            assert(part.thumbnail_paths@.take(part.thumbnail_paths@.len() as int)
                =~= part.thumbnail_paths@);
            assert(spec_views(paths@) =~= spec_concat_paths(all, k as int + 1));
        }
        k += 1;
    }
    BatchExtractionResult { thumbnail_paths: paths, success_count: success, failed_count: failed }
}

/// Partial success sums never exceed the total.
proof fn lemma_sum_success_mono(parts: Seq<BatchExtractionResult>, n: int, m: int)
    requires
        0 <= n <= m,
    ensures
        spec_sum_success(parts, n) <= spec_sum_success(parts, m),
    decreases m - n,
{
    if n < m {
        lemma_sum_success_mono(parts, n, m - 1);
    }
}

/// Partial failure sums never exceed the total.
proof fn lemma_sum_failed_mono(parts: Seq<BatchExtractionResult>, n: int, m: int)
    requires
        0 <= n <= m,
    ensures
        spec_sum_failed(parts, n) <= spec_sum_failed(parts, m),
    decreases m - n,
{
    if n < m {
        lemma_sum_failed_mono(parts, n, m - 1);
    }
}

} // verus!
