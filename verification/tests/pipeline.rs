//! Tests of the contact-sheet pipeline: timestamp selection, extraction
//! planning, batching with fallback, and grid assembly.

use auto_video_organize::batch_extractor::{
    batch_pattern, build_select_expression, chunk_fallback_actions, chunk_result, chunk_timestamps,
    combine_batch_results, placeholder_args, BatchExtractorConfig, ChunkOutcome, FrameAction,
};
use auto_video_organize::contact_sheet_merger::{
    build_xstack_layout, calculate_contact_sheet_size, create_contact_sheet_args,
    ContactSheetError, DEFAULT_GRID_COLS, DEFAULT_GRID_ROWS, DEFAULT_THUMBNAIL_COUNT,
};
use auto_video_organize::scene_detector::{
    build_scene_filter, parse_scdet_output, SceneChange, SceneDetectorConfig,
};
use auto_video_organize::thumbnail_extractor::{
    cancelled_result, create_thumbnail_tasks, extract_thumbnail_args, thumbnail_result,
    two_stage_seek, ExtractionOutcome, ThumbnailTask,
};
use auto_video_organize::timestamp_selector::{
    build_segments, calculate_representative_time, select_evenly, select_timestamps,
    split_longest_segments,
};
use auto_video_organize::uniform_selector::{
    select_uniform_timestamps, select_uniform_timestamps_with_margin,
};
use auto_video_organize::{THUMBNAIL_HEIGHT, THUMBNAIL_WIDTH};

fn make_scene_change(timestamp_ms: u64) -> SceneChange {
    SceneChange {
        timestamp_ms,
        score_milli: 1000,
    }
}

#[test]
fn test_select_timestamps_exact_count() {
    let duration = 100_000;
    let scenes: Vec<SceneChange> = (1..=5).map(|i| make_scene_change(i * 10_000)).collect();

    let timestamps = select_timestamps(duration, &scenes, 6);
    assert_eq!(timestamps.len(), 6);

    for t in &timestamps {
        assert!(*t < duration);
    }
}

#[test]
fn test_select_timestamps_more_scenes() {
    let duration = 100_000;
    let scenes: Vec<SceneChange> = (1..=20).map(|i| make_scene_change(i * 4_000)).collect();

    let timestamps = select_timestamps(duration, &scenes, 5);
    assert_eq!(timestamps.len(), 5);

    for i in 1..timestamps.len() {
        assert!(timestamps[i] > timestamps[i - 1]);
    }
}

#[test]
fn test_select_timestamps_fewer_scenes() {
    let duration = 100_000;
    let scenes = vec![make_scene_change(50_000)];

    let timestamps = select_timestamps(duration, &scenes, 4);
    assert_eq!(timestamps.len(), 4);

    for i in 1..timestamps.len() {
        assert!(timestamps[i] > timestamps[i - 1]);
    }
}

#[test]
fn test_select_timestamps_no_scenes() {
    let duration = 100_000;
    let scenes: Vec<SceneChange> = vec![];

    let timestamps = select_timestamps(duration, &scenes, 54);
    assert_eq!(timestamps.len(), 54);

    for i in 1..timestamps.len() {
        assert!(timestamps[i] > timestamps[i - 1]);
    }
    // The subdivision path spans the whole video.
    assert!(timestamps[0] < 10_000);
    assert!(timestamps[53] > 90_000);
}

#[test]
fn test_select_timestamps_edge_cases() {
    assert!(select_timestamps(0, &[], 10).is_empty());
    assert!(select_timestamps(100_000, &[], 0).is_empty());
}

#[test]
fn test_select_timestamps_deterministic() {
    let duration = 100_000;
    let scenes: Vec<SceneChange> = (1..=5).map(|i| make_scene_change(i * 100_000 / 6)).collect();
    let first = select_timestamps(duration, &scenes, 6);
    let second = select_timestamps(duration, &scenes, 6);
    assert_eq!(first, second);
    assert_eq!(first.len(), 6);
}

#[test]
fn test_build_segments() {
    let scenes = vec![make_scene_change(10_000), make_scene_change(20_000)];
    let segments = build_segments(30_000, &scenes);

    assert_eq!(segments.len(), 3);
    assert_eq!(segments[0], (0, 10_000));
    assert_eq!(segments[1], (10_000, 20_000));
    assert_eq!(segments[2], (20_000, 30_000));
}

#[test]
fn test_build_segments_drops_short() {
    // A cut 200 ms before the end leaves a degenerate tail segment.
    let scenes = vec![make_scene_change(29_800)];
    let segments = build_segments(30_000, &scenes);
    assert_eq!(segments, vec![(0, 29_800)]);
}

#[test]
fn test_split_longest_segments() {
    let segments = vec![(0, 10_000), (10_000, 20_000)];
    let result = split_longest_segments(segments, 4);

    assert_eq!(result.len(), 4);
    for i in 1..result.len() {
        assert!(result[i].0 >= result[i - 1].1);
    }
}

#[test]
fn test_select_evenly_endpoints() {
    let segments: Vec<(u64, u64)> = (0..10).map(|i| (i * 1000, (i + 1) * 1000)).collect();
    let picked = select_evenly(&segments, 3);
    assert_eq!(picked.len(), 3);
    assert_eq!(picked[0], segments[0]);
    assert_eq!(picked[2], segments[9]);
}

#[test]
fn test_representative_time_offset() {
    // A 10-second segment: 35% in, clear of both ends.
    assert_eq!(calculate_representative_time(0, 10_000, 100_000), 3_500);
    // A short segment pins the sample to the edge guard.
    assert_eq!(calculate_representative_time(0, 1_000, 100_000), 500);
}

#[test]
fn test_select_uniform_timestamps_basic() {
    let timestamps = select_uniform_timestamps(100_000, 10);

    assert_eq!(timestamps.len(), 10);
    for i in 1..timestamps.len() {
        assert!(timestamps[i] > timestamps[i - 1]);
    }
    for t in &timestamps {
        assert!(*t >= 100);
        assert!(*t <= 99_900);
    }
}

#[test]
fn test_select_uniform_timestamps_distribution() {
    let timestamps = select_uniform_timestamps(100_000, 5);

    assert_eq!(timestamps.len(), 5);
    assert_eq!(timestamps[0], 11_600);
    assert_eq!(timestamps[1], 30_800);
    assert_eq!(timestamps[2], 50_000);
    assert_eq!(timestamps[3], 69_200);
    assert_eq!(timestamps[4], 88_400);
}

#[test]
fn test_select_uniform_timestamps_54() {
    let timestamps = select_uniform_timestamps(3_600_000, 54);

    assert_eq!(timestamps.len(), 54);

    let mut intervals = Vec::new();
    for i in 1..timestamps.len() {
        intervals.push(timestamps[i] - timestamps[i - 1]);
    }
    let avg: u64 = intervals.iter().sum::<u64>() / intervals.len() as u64;
    for interval in &intervals {
        let diff = interval.abs_diff(avg);
        assert!(diff < 1000, "uneven spacing: {diff}");
    }
}

#[test]
fn test_select_uniform_timestamps_short_video() {
    let timestamps = select_uniform_timestamps(5_000, 10);

    assert_eq!(timestamps.len(), 10);
    for t in &timestamps {
        assert!(*t >= 100);
        assert!(*t <= 4_900);
    }
}

#[test]
fn test_select_uniform_timestamps_edge_cases() {
    assert!(select_uniform_timestamps(0, 10).is_empty());
    assert!(select_uniform_timestamps(100_000, 0).is_empty());
}

#[test]
fn test_select_uniform_timestamps_with_margin() {
    let timestamps = select_uniform_timestamps_with_margin(100_000, 5, 100, 100);

    assert_eq!(timestamps.len(), 5);
    assert!(timestamps[0] >= 10_000);
    assert!(timestamps[4] <= 90_000);
}

#[test]
fn test_select_uniform_timestamps_with_margin_midpoint() {
    // Margins that leave no span fall back to the single midpoint.
    let timestamps = select_uniform_timestamps_with_margin(100_000, 5, 600, 600);
    assert_eq!(timestamps, vec![50_000]);
}

#[test]
fn test_select_uniform_timestamps_single() {
    let timestamps = select_uniform_timestamps(100_000, 1);

    assert_eq!(timestamps.len(), 1);
    assert_eq!(timestamps[0], 50_000);
}

#[test]
fn test_parse_scdet_output_t_format() {
    let output = "
[Parsed_scdet_2 @ 0x7f9b8c] t:12.345 pts_time:12.345
[Parsed_scdet_2 @ 0x7f9b8c] t:25.678 pts_time:25.678
";
    let scenes = parse_scdet_output(output, 100_000);
    assert_eq!(scenes.len(), 2);
    assert_eq!(scenes[0].timestamp_ms, 12_345);
    assert_eq!(scenes[1].timestamp_ms, 25_678);
}

#[test]
fn test_parse_scdet_output_scd_time_format() {
    let output = "
frame:123 pts:12345 pts_time:12.345
lavfi.scd.time=12.345
frame:456 pts:25678 pts_time:25.678
lavfi.scd.time=25.678
";
    let scenes = parse_scdet_output(output, 100_000);
    assert_eq!(scenes.len(), 2);
}

#[test]
fn test_parse_scdet_output_filters_out_of_range() {
    let output = "
[scdet] t:0.0 pts_time:0.0
[scdet] t:50.0 pts_time:50.0
[scdet] t:150.0 pts_time:150.0
";
    let scenes = parse_scdet_output(output, 100_000);
    assert_eq!(scenes.len(), 1);
    assert_eq!(scenes[0].timestamp_ms, 50_000);
}

#[test]
fn test_parse_scdet_output_union_sorted_deduped() {
    // Both tag formats in one text; near-duplicates collapse; output is
    // sorted ascending.
    let output = "
lavfi.scd.time=40.0
[scdet] t:10.0 pts_time:10.0
lavfi.scd.time=10.05
[scdet] t:20.5 pts_time:20.5
";
    let scenes = parse_scdet_output(output, 100_000);
    let times: Vec<u64> = scenes.iter().map(|s| s.timestamp_ms).collect();
    assert_eq!(times, vec![10_000, 20_500, 40_000]);
    for s in &scenes {
        assert_eq!(s.score_milli, 1000);
    }
}

#[test]
fn test_config_auto_adjust() {
    let short = SceneDetectorConfig::auto_adjust(600_000);
    assert_eq!(short.analyze_fps_milli, 2000);

    let long = SceneDetectorConfig::auto_adjust(7_500_000);
    assert_eq!(long.analyze_fps_milli, 500);
}

#[test]
fn test_build_scene_filter_text() {
    let config = SceneDetectorConfig::auto_adjust(600_000);
    let filter = build_scene_filter(&config);
    assert_eq!(filter, "scale=320:-1,fps=2,scdet=s=1:t=12");

    let slow = SceneDetectorConfig::auto_adjust(8_000_000);
    assert_eq!(build_scene_filter(&slow), "scale=320:-1,fps=0.5,scdet=s=1:t=12");
}

#[test]
fn test_create_thumbnail_tasks() {
    let timestamps = vec![1_000, 2_000, 3_000];
    let tasks = create_thumbnail_tasks("/test/video.mp4", &timestamps, "/test/output");

    assert_eq!(tasks.len(), 3);
    assert_eq!(tasks[0].index, 0);
    assert_eq!(tasks[0].timestamp_ms, 1_000);
    assert_eq!(tasks[0].output_path, "/test/output/thumb_000.jpg");
    assert_eq!(tasks[2].index, 2);
    assert_eq!(tasks[2].output_path, "/test/output/thumb_002.jpg");
}

#[test]
fn test_thumbnail_task_clone() {
    let task = ThumbnailTask {
        video_path: "/test/video.mp4".to_string(),
        timestamp_ms: 10_500,
        output_path: "/test/thumb.jpg".to_string(),
        index: 0,
    };

    let cloned = task.clone();
    assert_eq!(cloned.video_path, task.video_path);
    assert_eq!(cloned.timestamp_ms, task.timestamp_ms);
}

#[test]
fn test_two_stage_seek() {
    assert_eq!(two_stage_seek(10_000), (8_000, 2_000));
    assert_eq!(two_stage_seek(500), (0, 500));
    assert_eq!(two_stage_seek(0), (0, 0));
}

#[test]
fn test_extract_thumbnail_args_seeks() {
    let task = ThumbnailTask {
        video_path: "/v.mp4".to_string(),
        timestamp_ms: 10_000,
        output_path: "/out/thumb_000.jpg".to_string(),
        index: 0,
    };
    let args = extract_thumbnail_args(&task);
    let pos = args.iter().position(|a| a == "-ss").unwrap();
    assert_eq!(args[pos + 1], "8.000");
    assert!(args.contains(&"2.000".to_string()));
    assert!(args.contains(
        &"scale=320:180:force_original_aspect_ratio=decrease,pad=320:180:(ow-iw)/2:(oh-ih)/2:black"
            .to_string()
    ));
    assert_eq!(args[args.len() - 1], "/out/thumb_000.jpg");
}

#[test]
fn test_thumbnail_result_outcomes() {
    let task = ThumbnailTask {
        video_path: "/v.mp4".to_string(),
        timestamp_ms: 1_000,
        output_path: "/out/thumb_001.jpg".to_string(),
        index: 1,
    };
    let ok = thumbnail_result(&task, ExtractionOutcome::Completed);
    assert!(ok.success);
    assert_eq!(ok.index, 1);
    assert!(ok.error_message.is_none());

    let bad = thumbnail_result(&task, ExtractionOutcome::ToolFailed("boom".to_string()));
    assert!(!bad.success);
    assert_eq!(bad.index, 1);
    assert_eq!(bad.error_message.as_deref(), Some("boom"));

    let gone = cancelled_result(&task);
    assert!(!gone.success);
    assert_eq!(gone.error_message.as_deref(), Some("cancelled"));
}

#[test]
fn test_result_indices_form_permutation() {
    let timestamps = vec![1_000, 2_000, 3_000, 4_000];
    let tasks = create_thumbnail_tasks("/v.mp4", &timestamps, "/out");
    // Complete the tasks in reverse, as a parallel run might.
    let mut results = Vec::new();
    for task in tasks.iter().rev() {
        results.push(thumbnail_result(task, ExtractionOutcome::Completed));
    }
    let mut indices: Vec<usize> = results.iter().map(|r| r.index).collect();
    indices.sort_unstable();
    assert_eq!(indices, vec![0, 1, 2, 3]);
}

#[test]
fn test_build_select_expression() {
    let timestamps = vec![1_000, 5_000, 10_000];
    let expr = build_select_expression(&timestamps);

    assert!(expr.contains("select="));
    assert!(expr.contains("between"));
    assert_eq!(
        expr,
        "select='between(t\\,0.950\\,1.050)+between(t\\,4.950\\,5.050)+between(t\\,9.950\\,10.050)'"
    );
}

#[test]
fn test_batch_extractor_config_default() {
    let config = BatchExtractorConfig::default();
    assert_eq!(config.width, THUMBNAIL_WIDTH);
    assert_eq!(config.height, THUMBNAIL_HEIGHT);
    assert_eq!(config.quality, 2);
}

#[test]
fn test_chunk_timestamps_sizes() {
    let timestamps: Vec<u64> = (0..40).map(|i| i * 1000).collect();
    let chunks = chunk_timestamps(&timestamps);
    assert_eq!(chunks.len(), 3);
    assert_eq!(chunks[0].len(), 18);
    assert_eq!(chunks[1].len(), 18);
    assert_eq!(chunks[2].len(), 4);
    assert_eq!(chunks[0][0], 0);
    assert_eq!(chunks[2][3], 39_000);
}

#[test]
fn test_batch_pattern_text() {
    assert_eq!(batch_pattern("/tmp/work", 1), "/tmp/work/thumb_001_%03d.jpg");
}

#[test]
fn test_placeholder_args_source() {
    let config = BatchExtractorConfig::default();
    let args = placeholder_args("/out/thumb_007.jpg", &config);
    assert!(args.contains(&"color=c=black:s=320x180:d=1".to_string()));
    assert_eq!(args[args.len() - 1], "/out/thumb_007.jpg");
}

#[test]
fn test_full_fallback_recovers_all() {
    // The batch invocation fails entirely; every single extraction
    // succeeds standalone: all timestamps still end with a frame.
    let actions = chunk_fallback_actions(3, &ChunkOutcome::BatchFailed);
    assert_eq!(
        actions,
        vec![
            FrameAction::SingleThenPlaceholder,
            FrameAction::SingleThenPlaceholder,
            FrameAction::SingleThenPlaceholder
        ]
    );
    let result = chunk_result(0, 3, "/out", &ChunkOutcome::BatchFailed, &vec![true, true, true]);
    assert_eq!(result.success_count, 3);
    assert_eq!(result.failed_count, 0);
    assert_eq!(
        result.thumbnail_paths,
        vec!["/out/thumb_000.jpg", "/out/thumb_001.jpg", "/out/thumb_002.jpg"]
    );
}

#[test]
fn test_partial_fallback_single_only() {
    // The batch produced two of three frames: only the missing one is
    // re-extracted, with no placeholder tier.
    let outcome = ChunkOutcome::BatchProduced(vec![true, false, true]);
    let actions = chunk_fallback_actions(3, &outcome);
    assert_eq!(
        actions,
        vec![FrameAction::KeepBatchFrame, FrameAction::SingleOnly, FrameAction::KeepBatchFrame]
    );
    let result = chunk_result(18, 3, "/out", &outcome, &vec![false, false, false]);
    assert_eq!(result.success_count, 2);
    assert_eq!(result.failed_count, 1);
    assert_eq!(result.thumbnail_paths, vec!["/out/thumb_018.jpg", "/out/thumb_020.jpg"]);
}

#[test]
fn test_combine_batch_results_counts() {
    let a = chunk_result(0, 2, "/out", &ChunkOutcome::BatchFailed, &vec![true, false]);
    let b = chunk_result(2, 1, "/out", &ChunkOutcome::BatchProduced(vec![true]), &vec![false]);
    let whole = combine_batch_results(vec![a, b]);
    assert_eq!(whole.success_count, 2);
    assert_eq!(whole.failed_count, 1);
    assert_eq!(whole.thumbnail_paths, vec!["/out/thumb_000.jpg", "/out/thumb_002.jpg"]);
}

#[test]
fn test_build_xstack_layout_2x2() {
    let layout = build_xstack_layout(2, 2);
    assert_eq!(layout, "0_0|320_0|0_180|320_180");
}

#[test]
fn test_build_xstack_layout_3x2() {
    let layout = build_xstack_layout(3, 2);
    assert_eq!(layout, "0_0|320_0|640_0|0_180|320_180|640_180");
}

#[test]
fn test_calculate_contact_sheet_size() {
    let (width, height) = calculate_contact_sheet_size(9, 6);
    assert_eq!(width, 9 * 320);
    assert_eq!(height, 6 * 180);
}

#[test]
fn test_default_grid_count() {
    assert_eq!(DEFAULT_THUMBNAIL_COUNT, 54);
    assert_eq!(DEFAULT_GRID_COLS * DEFAULT_GRID_ROWS, 54);
}

#[test]
fn test_contact_sheet_rejects_short_input() {
    let thumbs: Vec<String> =
        vec!["/a.jpg".to_string(), "/b.jpg".to_string(), "/c.jpg".to_string()];
    let r = create_contact_sheet_args(&thumbs, "/out/sheet.jpg", 2, 2);
    assert_eq!(
        r.unwrap_err(),
        ContactSheetError::NotEnoughThumbnails { needed: 4, got: 3 }
    );
}

#[test]
fn test_contact_sheet_args_complete() {
    let thumbs: Vec<String> = (0..4).map(|i| format!("/t/{i}.jpg")).collect();
    let args = create_contact_sheet_args(&thumbs, "/out/sheet.jpg", 2, 2).unwrap();
    assert_eq!(args[0], "-hide_banner");
    assert_eq!(args.iter().filter(|a| a.as_str() == "-i").count(), 4);
    assert!(args.contains(&"xstack=inputs=4:layout=0_0|320_0|0_180|320_180".to_string()));
    assert_eq!(args[args.len() - 1], "/out/sheet.jpg");
}
