//! Single-frame extraction planning.
//!
//! One task per selected timestamp.  The verified side builds the task
//! list, the two-stage seek decomposition and the full argument vector of
//! one extraction, and turns the observed outcome of an invocation into
//! the task's result; the unverified binary only spawns the process and
//! reports what happened.  A failure never escapes as a panic: it is
//! captured in the result with `success == false` and a message.

use vstd::prelude::*;

use crate::contact_sheet_merger::spec_views;
use crate::strfmt::{fmt_ms3, fmt_u64, fmt_u64_pad3, spec_dec, spec_dec_pad3, spec_ms3};
use crate::{THUMBNAIL_HEIGHT, THUMBNAIL_WIDTH};

verus! {

/// Head start of the coarse pre-open seek before the fine seek, in
/// milliseconds.
pub const SEEK_MARGIN_MS: u64 = 2000;

/// One planned extraction: take the frame at `timestamp_ms` of
/// `video_path` and write it to `output_path`.  `index` is the stable
/// ordinal of the frame in the final grid (row-major, 0-based).
#[derive(Debug, Clone)]
pub struct ThumbnailTask {
    pub video_path: String,
    pub timestamp_ms: u64,
    pub output_path: String,
    pub index: usize,
}

/// The outcome of one extraction: either a frame file, or a captured
/// failure under the same index.
#[derive(Debug)]
pub struct ThumbnailResult {
    pub output_path: String,
    pub index: usize,
    pub success: bool,
    pub error_message: Option<String>,
}

/// What the unverified runner observed of one extraction attempt.
#[derive(Debug)]
pub enum ExtractionOutcome {
    /// The tool exited cleanly and the output file exists.
    Completed,
    /// The tool could not be started; the text says why.
    LaunchFailed(String),
    /// The tool exited with an error; the text is its diagnostic output.
    ToolFailed(String),
    /// The tool exited cleanly but produced no output file.
    OutputMissing,
}

/// The frame file name of ordinal `i`: `thumb_<i, three digits>.jpg`.
pub open spec fn spec_thumb_name(i: int) -> Seq<char> {
    "thumb_"@ + spec_dec_pad3(i as nat) + ".jpg"@
}

/// The frame path of ordinal `i` below a directory.
pub open spec fn spec_thumb_path(dir: Seq<char>, i: int) -> Seq<char> {
    dir + "/"@ + spec_thumb_name(i)
}

/// The file name of the frame with ordinal `index`.
pub fn thumb_name(index: usize) -> (r: String)
    ensures
        r@ == spec_thumb_name(index as int),
{
    let mut s = "thumb_".to_owned();
    let digits = fmt_u64_pad3(index as u64);
    s.append(digits.as_str());
    s.append(".jpg");
    proof {
        assert(s@ =~= spec_thumb_name(index as int));
    }
    s
}

/// The path of the frame with ordinal `index` below `dir`.
pub fn thumb_path(dir: &str, index: usize) -> (r: String)
    ensures
        r@ == spec_thumb_path(dir@, index as int),
{
    let mut s = dir.to_owned();
    s.append("/");
    let name = thumb_name(index);
    s.append(name.as_str());
    proof {
        assert(s@ =~= spec_thumb_path(dir@, index as int));
    }
    s
}

/// Builds one task per timestamp: task `i` carries ordinal `i`, the
/// `i`-th timestamp, and the frame path of ordinal `i`.
pub fn create_thumbnail_tasks(video_path: &str, timestamps: &Vec<u64>, output_dir: &str) -> (r:
    Vec<ThumbnailTask>)
    ensures
        r@.len() == timestamps@.len(),
        forall|i: int|
            0 <= i < r@.len() ==> {
                &&& (#[trigger] r@[i]).index == i
                &&& r@[i].timestamp_ms == timestamps@[i]
                &&& r@[i].video_path@ == video_path@
                &&& r@[i].output_path@ == spec_thumb_path(output_dir@, i)
            },
{
    let mut r: Vec<ThumbnailTask> = Vec::new();
    let mut i: usize = 0;
    while i < timestamps.len()
        invariant
            i <= timestamps@.len(),
            r@.len() == i,
            forall|j: int|
                0 <= j < i ==> {
                    &&& (#[trigger] r@[j]).index == j
                    &&& r@[j].timestamp_ms == timestamps@[j]
                    &&& r@[j].video_path@ == video_path@
                    &&& r@[j].output_path@ == spec_thumb_path(output_dir@, j)
                },
        decreases timestamps.len() - i,
    {
        let task = ThumbnailTask {
            video_path: video_path.to_owned(),
            timestamp_ms: timestamps[i],
            output_path: thumb_path(output_dir, i),
            index: i,
        };
        r.push(task);
        i += 1;
    }
    r
}

/// The coarse pre-open seek position: two seconds before the target,
/// clamped at the start of the video.
pub open spec fn spec_coarse_seek(ts: u64) -> u64 {
    if ts >= SEEK_MARGIN_MS {
        (ts - SEEK_MARGIN_MS) as u64
    } else {
        0u64
    }
}

/// Splits a target position into the coarse pre-open seek and the fine
/// residual seek.  The two always add back up to the target, and the
/// fine part never exceeds the seek margin.
pub fn two_stage_seek(timestamp_ms: u64) -> (r: (u64, u64))
    ensures
        r.0 == spec_coarse_seek(timestamp_ms),
        r.0 + r.1 == timestamp_ms,
        r.1 <= SEEK_MARGIN_MS,
{
    let t0: u64 = if timestamp_ms >= SEEK_MARGIN_MS {
        timestamp_ms - SEEK_MARGIN_MS
    } else {
        0
    };
    (t0, timestamp_ms - t0)
}

/// The scale-then-letterbox filter: fit into `w` by `h` keeping aspect,
/// pad the rest with black.
pub open spec fn spec_scale_filter(w: u32, h: u32) -> Seq<char> {
    "scale="@ + spec_dec(w as nat) + ":"@ + spec_dec(h as nat)
        + ":force_original_aspect_ratio=decrease,pad="@ + spec_dec(w as nat) + ":"@ + spec_dec(
        h as nat,
    ) + ":(ow-iw)/2:(oh-ih)/2:black"@
}

/// Builds the scale-then-letterbox filter expression.
pub fn build_scale_filter(w: u32, h: u32) -> (r: String)
    ensures
        r@ == spec_scale_filter(w, h),
{
    let ws = fmt_u64(w as u64);
    let hs = fmt_u64(h as u64);
    let mut s = "scale=".to_owned();
    s.append(ws.as_str());
    s.append(":");
    s.append(hs.as_str());
    s.append(":force_original_aspect_ratio=decrease,pad=");
    s.append(ws.as_str());
    s.append(":");
    s.append(hs.as_str());
    s.append(":(ow-iw)/2:(oh-ih)/2:black");
    proof {
        assert(s@ =~= spec_scale_filter(w, h));
    }
    s
}

/// The full argument vector of one single-frame extraction: two-stage
/// seek, fixed-size letterboxed output, one frame, one decode thread.
pub open spec fn spec_extract_args(video: Seq<char>, ts: u64, out: Seq<char>) -> Seq<Seq<char>> {
    let t0 = spec_coarse_seek(ts);
    let delta = (ts - t0) as u64;
    seq!["-hide_banner"@, "-loglevel"@, "error"@] + (if t0 > 0 {
        seq!["-ss"@, spec_ms3(t0 as nat)]
    } else {
        Seq::empty()
    }) + seq!["-i"@, video] + (if delta > 0 {
        seq!["-ss"@, spec_ms3(delta as nat)]
    } else {
        Seq::empty()
    }) + seq![
        "-frames:v"@,
        "1"@,
        "-an"@,
        "-sn"@,
        "-dn"@,
        "-threads"@,
        "1"@,
        "-vf"@,
        spec_scale_filter(THUMBNAIL_WIDTH, THUMBNAIL_HEIGHT),
        "-q:v"@,
        "2"@,
        "-y"@,
        out,
    ]
}

/// Builds the argument vector of the extraction that `task` plans.
pub fn extract_thumbnail_args(task: &ThumbnailTask) -> (r: Vec<String>)
    ensures
        spec_views(r@) == spec_extract_args(task.video_path@, task.timestamp_ms, task.output_path@),
{
    let (t0, delta) = two_stage_seek(task.timestamp_ms);
    let mut args: Vec<String> = Vec::new();
    args.push("-hide_banner".to_owned());
    args.push("-loglevel".to_owned());
    args.push("error".to_owned());
    if t0 > 0 {
        args.push("-ss".to_owned());
        args.push(fmt_ms3(t0));
    }
    args.push("-i".to_owned());
    args.push(task.video_path.clone());
    if delta > 0 {
        args.push("-ss".to_owned());
        args.push(fmt_ms3(delta));
    }
    args.push("-frames:v".to_owned());
    args.push("1".to_owned());
    args.push("-an".to_owned());
    args.push("-sn".to_owned());
    args.push("-dn".to_owned());
    args.push("-threads".to_owned());
    args.push("1".to_owned());
    args.push("-vf".to_owned());
    args.push(build_scale_filter(THUMBNAIL_WIDTH, THUMBNAIL_HEIGHT));
    args.push("-q:v".to_owned());
    args.push("2".to_owned());
    args.push("-y".to_owned());
    args.push(task.output_path.clone());
    proof {
        assert(spec_views(args@) =~= spec_extract_args(
            task.video_path@,
            task.timestamp_ms,
            task.output_path@,
        ));
    }
    args
}

/// Turns the observed outcome of one extraction attempt into the task's
/// result: the task's index and output path are kept, success is exactly
/// a clean completion, and every failure carries a message.
pub fn thumbnail_result(task: &ThumbnailTask, outcome: ExtractionOutcome) -> (r: ThumbnailResult)
    ensures
        r.index == task.index,
        r.output_path@ == task.output_path@,
        r.success == (outcome is Completed),
        r.success <==> r.error_message is None,
{
    match outcome {
        ExtractionOutcome::Completed => ThumbnailResult {
            output_path: task.output_path.clone(),
            index: task.index,
            success: true,
            error_message: None,
        },
        ExtractionOutcome::LaunchFailed(msg) => ThumbnailResult {
            output_path: task.output_path.clone(),
            index: task.index,
            success: false,
            error_message: Some(msg),
        },
        ExtractionOutcome::ToolFailed(msg) => ThumbnailResult {
            output_path: task.output_path.clone(),
            index: task.index,
            success: false,
            error_message: Some(msg),
        },
        ExtractionOutcome::OutputMissing => ThumbnailResult {
            output_path: task.output_path.clone(),
            index: task.index,
            success: false,
            error_message: Some("output file was not created".to_owned()),
        },
    }
}

/// The short-circuit result of a task observed after the shutdown flag
/// was set: no process is launched, the task fails as cancelled.
pub fn cancelled_result(task: &ThumbnailTask) -> (r: ThumbnailResult)
    ensures
        r.index == task.index,
        r.output_path@ == task.output_path@,
        !r.success,
        match r.error_message {
            Some(m) => m@ == "cancelled"@,
            None => false,
        },
{
    ThumbnailResult {
        output_path: task.output_path.clone(),
        index: task.index,
        success: false,
        error_message: Some("cancelled".to_owned()),
    }
}

/// The indices of a task list.
pub open spec fn spec_task_indices(tasks: Seq<ThumbnailTask>) -> Seq<usize> {
    tasks.map_values(|t: ThumbnailTask| t.index)
}

/// The indices of a result list.
pub open spec fn spec_result_indices(results: Seq<ThumbnailResult>) -> Seq<usize> {
    results.map_values(|r: ThumbnailResult| r.index)
}

/// Whatever order an extraction strategy completes in — sequential,
/// parallel or batched — it hands back one result per task, each under
/// its task's index.  Over the tasks of [`create_thumbnail_tasks`] (task
/// `i` carries index `i`) the result indices are then a permutation of
/// `0 .. count`: every ordinal exactly once, none missing, none repeated.
pub proof fn lemma_result_indices_permutation(
    tasks: Seq<ThumbnailTask>,
    results: Seq<ThumbnailResult>,
)
    requires
        forall|i: int| 0 <= i < tasks.len() ==> (#[trigger] tasks[i]).index == i,
        spec_result_indices(results).to_multiset() == spec_task_indices(tasks).to_multiset(),
    ensures
        results.len() == tasks.len(),
        forall|k: int|
            0 <= k < tasks.len() ==> #[trigger] spec_result_indices(results).to_multiset().count(
                (k as usize),
            ) == 1,
        forall|j: int| 0 <= j < results.len() ==> (#[trigger] results[j]).index < tasks.len(),
{
    broadcast use vstd::seq_lib::group_to_multiset_ensures;

    let ti = spec_task_indices(tasks);
    let ri = spec_result_indices(results);
    assert(ti.len() == tasks.len());
    assert(ri.len() == results.len());
    assert(ti.no_duplicates()) by {
        assert forall|i: int, j: int|
            0 <= i < ti.len() && 0 <= j < ti.len() && i != j implies ti[i] != ti[j] by {
            assert(ti[i] == tasks[i].index);
            assert(ti[j] == tasks[j].index);
        }
    }
    ti.lemma_multiset_has_no_duplicates();
    assert(results.len() == tasks.len()) by {
        assert(ri.to_multiset().len() == ti.to_multiset().len());
    }
    assert forall|k: int| 0 <= k < tasks.len() implies #[trigger] ri.to_multiset().count(
        (k as usize),
    ) == 1 by {
        assert(ti[k] == (k as usize));
        assert(ti.contains((k as usize)));
        assert(ti.to_multiset().count((k as usize)) > 0);
        assert(ti.to_multiset().contains((k as usize)));
        assert(ti.to_multiset().count((k as usize)) == 1);
    }
    assert forall|j: int| 0 <= j < results.len() implies (#[trigger] results[j]).index
        < tasks.len() by {
        let x = results[j].index;
        assert(ri[j] == x);
        assert(ri.contains(x));
        assert(ri.to_multiset().count(x) > 0);
        assert(ti.to_multiset().count(x) > 0);
        assert(ti.contains(x));
        let w = choose|w: int| 0 <= w < ti.len() && ti[w] == x;
        assert(tasks[w].index == w);
    }
}

} // verus!
