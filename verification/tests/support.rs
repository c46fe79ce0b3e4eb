//! Tests of the supporting modules: the digest ledger, file grouping,
//! encoder planning, configuration, renaming helpers and text formatting.

use auto_video_organize::components::{summarize_generation, VideoOutcome};
use auto_video_organize::config::{lower_ascii, Config, FileTypeTable};
use auto_video_organize::duplication::{calculate_data_hash, register_file, DuplicationChecker, FileClass};
use auto_video_organize::encoder::{
    find_next_pending_task, format_ms, is_all_completed, parse_out_time_ms, EncodingTask,
    FfmpegCommand, TaskStatus,
};
use auto_video_organize::ffprobe_info::parse_frame_rate;
use auto_video_organize::file_grouper::{group_by_stem, FileGroup, FileGrouper};
use auto_video_organize::filename_cleaner::{CleanedFilename, FilenameCleaner};
use auto_video_organize::hash_table::HashTable;
use auto_video_organize::pathtext::{extension_of, file_name_of, parent_of, stem_of};
use auto_video_organize::strfmt::{fmt_milli_compact, fmt_ms3, fmt_u64, fmt_u64_pad3};
use auto_video_organize::video_scanner::{sort_videos_by_size, VideoFileInfo, VideoSorter, VideoWithDuration};

fn table_with_videos(exts: &[&str]) -> FileTypeTable {
    FileTypeTable {
        video_file: exts.iter().map(|e| e.to_string()).collect(),
        audio_file: vec![],
        image_file: vec![],
        archive_file: vec![],
        document_file: vec![],
        spreadsheet_file: vec![],
        presentation_file: vec![],
        ebook_file: vec![],
        code_file: vec![],
        markup_language_file: vec![],
        database_file: vec![],
        executable_file: vec![],
        font_file: vec![],
        cad_3d_file: vec![],
        system_file: vec![],
    }
}

#[test]
fn test_hash_table_insert_and_contains() {
    let mut table = HashTable::new();
    table.insert(1000, "abc123".to_string());

    assert!(table.has_size(1000));
    assert!(table.contains_hash(1000, "abc123"));
    assert!(!table.contains_hash(1000, "def456"));
    assert!(!table.has_size(2000));
}

#[test]
fn test_hash_table_empty() {
    let table = HashTable::new();
    assert!(table.is_empty());
    let mut table = table;
    table.insert(1, "h".to_string());
    assert!(!table.is_empty());
}

#[test]
fn test_calculate_data_hash_shape() {
    let h1 = calculate_data_hash(b"test content");
    assert_eq!(h1.len(), 64);
    assert!(h1.chars().all(|c| c.is_ascii_hexdigit()));
    // The digest is not the input itself.
    assert_ne!(h1.as_str(), "test content");
}

#[test]
fn test_same_content_same_hash() {
    let h1 = calculate_data_hash(b"identical content");
    let h2 = calculate_data_hash(b"identical content");
    assert_eq!(h1, h2);
}

#[test]
fn test_different_content_different_hash() {
    let h1 = calculate_data_hash(b"content A");
    let h2 = calculate_data_hash(b"content B");
    assert_ne!(h1, h2);
}

#[test]
fn test_register_file_flow() {
    let mut table = HashTable::new();
    // New size: registered.
    assert_eq!(register_file(&mut table, 12, b"same bytes"), FileClass::New);
    // Same size, same content: a duplicate.
    assert_eq!(register_file(&mut table, 12, b"same bytes"), FileClass::Duplicate);
    // Same size, other content: new.
    assert_eq!(register_file(&mut table, 12, b"diff bytes"), FileClass::New);
    // The digest is stored, not the raw content.
    assert!(!table.contains_hash(12, "same bytes"));
}

#[test]
fn test_duplication_checker_paths() {
    let checker = DuplicationChecker::new(Config::new(table_with_videos(&[".mp4"])));
    assert_eq!(checker.get_hash_table_path(), "hash_table.json");
}

#[test]
fn test_file_group_is_orphan() {
    let orphan = FileGroup {
        stem: "test".to_string(),
        files: vec!["/test/test.mp4".to_string()],
    };
    assert!(orphan.is_orphan());

    let paired = FileGroup {
        stem: "video".to_string(),
        files: vec!["/test/video.mp4".to_string(), "/test/video.jpg".to_string()],
    };
    assert!(!paired.is_orphan());
}

#[test]
fn test_group_by_stem_groups_and_orphans() {
    let names: Vec<String> = vec![
        "video1.mp4".to_string(),
        "video1.jpg".to_string(),
        "orphan.txt".to_string(),
        ".hidden".to_string(),
        "multi.mp4".to_string(),
        "multi.jpg".to_string(),
        "multi.srt".to_string(),
    ];
    let groups = group_by_stem(&names);
    assert_eq!(groups.len(), 3);

    let orphans = FileGrouper::get_orphan_files(&groups);
    assert_eq!(orphans, vec!["orphan.txt"]);

    let paired = FileGrouper::get_paired_groups(&groups);
    assert_eq!(paired.len(), 2);
    for idx in paired {
        assert!(groups[idx].files.len() > 1);
    }
}

#[test]
fn test_grouper_folder_names() {
    let grouper = FileGrouper::new();
    assert_eq!(grouper.orphan_folder_name(), "orphan_files");
    let custom = grouper.with_orphan_folder_name("moved_files");
    assert_eq!(custom.orphan_folder_name(), "moved_files");
}

#[test]
fn test_generate_destination_path() {
    let cmd = FfmpegCommand::new("/videos/test.mp4");
    assert_eq!(cmd.destination_path(), "/videos/test.convert.mkv");
}

#[test]
fn test_generate_destination_path_with_dots() {
    let cmd = FfmpegCommand::new("/videos/test.video.name.mp4");
    assert_eq!(cmd.destination_path(), "/videos/test.video.name.convert.mkv");
}

#[test]
fn test_build_args_shape() {
    let cmd = FfmpegCommand::new("/videos/test.mp4");
    let args = cmd.build_args();
    assert_eq!(args[0], "-hide_banner");
    assert!(args.contains(&"file:/videos/test.mp4".to_string()));
    assert!(args.contains(&"libx265".to_string()));
    assert_eq!(args[args.len() - 1], "/videos/test.convert.mkv");
}

#[test]
fn test_encoding_task_new() {
    let info = VideoFileInfo {
        path: "/videos/test.mp4".to_string(),
        size: 1000,
        duration_ms: Some(60_000),
    };
    let task = EncodingTask::new(&info);
    assert_eq!(task.source_path, "/videos/test.mp4");
    assert_eq!(task.destination_path, "/videos/test.convert.mkv");
    assert_eq!(task.status, TaskStatus::Pending);
    assert!(task.error_message.is_none());
}

#[test]
fn test_scheduler_decisions() {
    let info = VideoFileInfo {
        path: "/a.mp4".to_string(),
        size: 1,
        duration_ms: None,
    };
    let mut tasks = vec![EncodingTask::new(&info), EncodingTask::new(&info)];
    assert_eq!(find_next_pending_task(&tasks), Some(0));
    assert!(!is_all_completed(&tasks));
    tasks[0].status = TaskStatus::Completed;
    assert_eq!(find_next_pending_task(&tasks), Some(1));
    tasks[1].status = TaskStatus::Failed;
    assert_eq!(find_next_pending_task(&tasks), None);
    assert!(is_all_completed(&tasks));
}

#[test]
fn test_video_file_info_sorting() {
    let mut files = [
        VideoFileInfo {
            path: "/a.mp4".to_string(),
            size: 1000,
            duration_ms: Some(10_000),
        },
        VideoFileInfo {
            path: "/b.mp4".to_string(),
            size: 500,
            duration_ms: Some(5_000),
        },
        VideoFileInfo {
            path: "/c.mp4".to_string(),
            size: 2000,
            duration_ms: Some(20_000),
        },
    ];
    files.sort_by_key(|f| f.size);
    assert_eq!(files[0].size, 500);
    assert_eq!(files[1].size, 1000);
    assert_eq!(files[2].size, 2000);
}

#[test]
fn test_sort_videos_by_size() {
    let files = vec![
        VideoFileInfo {
            path: "/a.mp4".to_string(),
            size: 1000,
            duration_ms: None,
        },
        VideoFileInfo {
            path: "/b.mp4".to_string(),
            size: 500,
            duration_ms: None,
        },
        VideoFileInfo {
            path: "/c.mp4".to_string(),
            size: 2000,
            duration_ms: None,
        },
    ];
    let sorted = sort_videos_by_size(files);
    let sizes: Vec<u64> = sorted.iter().map(|f| f.size).collect();
    assert_eq!(sizes, vec![500, 1000, 2000]);
    assert_eq!(sorted[0].path, "/b.mp4");
}

#[test]
fn test_is_video_file() {
    let config = Config::new(table_with_videos(&[".mp4", ".MKV"]));
    let table = &config.file_type_table;
    assert!(table.is_video_file("/dir/movie.mp4"));
    assert!(table.is_video_file("/dir/movie.MP4"));
    assert!(table.is_video_file("movie.mkv"));
    assert!(!table.is_video_file("/dir/notes.txt"));
    assert!(!table.is_video_file("/dir/noext"));
}

#[test]
fn test_video_extensions_set_folds_case() {
    let table = table_with_videos(&[".Mp4", ".MKV"]);
    let set = table.video_extensions_set();
    assert_eq!(set, vec![".mp4", ".mkv"]);
}

#[test]
fn test_lower_ascii() {
    assert_eq!(lower_ascii("AbC.Mp4"), "abc.mp4");
    assert_eq!(lower_ascii("already"), "already");
}

#[test]
fn test_pathtext_parts() {
    assert_eq!(file_name_of("/videos/test.mp4"), "test.mp4");
    assert_eq!(parent_of("/videos/test.mp4"), "/videos");
    assert_eq!(stem_of("test.mp4"), "test");
    assert_eq!(stem_of(".hidden"), ".hidden");
    assert_eq!(extension_of("test.tar.gz"), "gz");
    assert_eq!(extension_of("noext"), "");
}

#[test]
fn test_split_extension_parts() {
    let cleaner = FilenameCleaner::new();
    let (base, ext) = cleaner.split_extension("my video.MP4");
    assert_eq!(base, "my video");
    assert_eq!(ext, "mp4");

    let (base, ext) = cleaner.split_extension("my video");
    assert_eq!(base, "my video");
    assert_eq!(ext, "");
}

#[test]
fn test_extract_convert_flag() {
    let cleaner = FilenameCleaner::new();
    let (base, flag) = cleaner.extract_convert_flag("my video.convert.Convert");
    assert_eq!(base, "my video");
    assert!(flag);

    let (base, flag) = cleaner.extract_convert_flag("my video");
    assert_eq!(base, "my video");
    assert!(!flag);
}

#[test]
fn test_format_new_filename() {
    let cleaner = FilenameCleaner::new();
    let cleaned = CleanedFilename {
        base_name: "my video".to_string(),
        extension: "mp4".to_string(),
        has_convert: false,
    };
    let result = cleaner.format_new_filename(1, &cleaned, "aaaaaaaa-bbbb-cccc-dddd-eeeeeeeeeeee");
    assert_eq!(result, "[1] my video_aaaaaaaa-bbbb-cccc-dddd-eeeeeeeeeeee.mp4");
}

#[test]
fn test_format_new_filename_with_convert() {
    let cleaner = FilenameCleaner::new();
    let cleaned = CleanedFilename {
        base_name: "my video".to_string(),
        extension: "mp4".to_string(),
        has_convert: true,
    };
    let result = cleaner.format_new_filename(1, &cleaned, "aaaaaaaa-bbbb-cccc-dddd-eeeeeeeeeeee");
    assert_eq!(result, "[1] my video_aaaaaaaa-bbbb-cccc-dddd-eeeeeeeeeeee.convert.mp4");
}

#[test]
fn test_parse_frame_rate_fraction() {
    assert_eq!(parse_frame_rate("30/1"), Some(30_000));
    assert_eq!(parse_frame_rate("30000/1001"), Some(29_970));
    assert_eq!(parse_frame_rate("24/1"), Some(24_000));
}

#[test]
fn test_parse_frame_rate_decimal() {
    assert_eq!(parse_frame_rate("29.97"), Some(29_970));
    assert_eq!(parse_frame_rate("60"), Some(60_000));
}

#[test]
fn test_parse_frame_rate_invalid() {
    assert_eq!(parse_frame_rate("invalid"), None);
    assert_eq!(parse_frame_rate("30/0"), None);
}

#[test]
fn test_summarize_generation() {
    let outcomes = vec![
        VideoOutcome::Succeeded,
        VideoOutcome::Skipped,
        VideoOutcome::Succeeded,
        VideoOutcome::Failed,
    ];
    let result = summarize_generation(&outcomes);
    assert_eq!(result.total_videos, 4);
    assert_eq!(result.successful, 2);
    assert_eq!(result.failed, 1);
    assert_eq!(result.skipped, 1);
}

#[test]
fn test_strfmt_renderings() {
    assert_eq!(fmt_u64(0), "0");
    assert_eq!(fmt_u64(1234), "1234");
    assert_eq!(fmt_u64_pad3(7), "007");
    assert_eq!(fmt_u64_pad3(1234), "1234");
    assert_eq!(fmt_ms3(12_345), "12.345");
    assert_eq!(fmt_ms3(50), "0.050");
    assert_eq!(fmt_milli_compact(2000), "2");
    assert_eq!(fmt_milli_compact(500), "0.5");
    assert_eq!(fmt_milli_compact(12_000), "12");
}

#[test]
fn test_clean_simple_filename() {
    let result = FilenameCleaner::new().clean("my video.mp4");
    assert_eq!(result.base_name, "my video");
    assert_eq!(result.extension, "mp4");
    assert!(!result.has_convert);
}

#[test]
fn test_clean_filename_with_leading_number() {
    let result = FilenameCleaner::new().clean("[123] my video.mp4");
    assert_eq!(result.base_name, "my video");
    assert_eq!(result.extension, "mp4");
}

#[test]
fn test_clean_filename_with_uuid_bracket() {
    let result = FilenameCleaner::new().clean("my video [12345678-1234-1234-1234-123456789abc].mp4");
    assert_eq!(result.base_name, "my video");
    assert_eq!(result.extension, "mp4");
}

#[test]
fn test_clean_filename_with_uuid_underscore() {
    let result = FilenameCleaner::new().clean("my video_12345678-1234-1234-1234-123456789abc.mp4");
    assert_eq!(result.base_name, "my video");
    assert_eq!(result.extension, "mp4");
}

#[test]
fn test_clean_filename_with_convert() {
    let result = FilenameCleaner::new().clean("my video.convert.mp4");
    assert_eq!(result.base_name, "my video");
    assert_eq!(result.extension, "mp4");
    assert!(result.has_convert);
}

#[test]
fn test_clean_filename_with_multiple_convert() {
    let result = FilenameCleaner::new().clean("my video.convert.convert.mp4");
    assert_eq!(result.base_name, "my video");
    assert_eq!(result.extension, "mp4");
    assert!(result.has_convert);
}

#[test]
fn test_clean_filename_with_illegal_chars() {
    let result = FilenameCleaner::new().clean("my<>video:test.mp4");
    assert_eq!(result.base_name, "my video test");
    assert_eq!(result.extension, "mp4");
}

#[test]
fn test_clean_filename_empty_base() {
    let result = FilenameCleaner::new().clean("[123] [12345678-1234-1234-1234-123456789abc].mp4");
    assert_eq!(result.base_name, "video");
    assert_eq!(result.extension, "mp4");
}

#[test]
fn test_clean_filename_complex() {
    let result = FilenameCleaner::new()
        .clean("[42] my<>video:test [12345678-1234-1234-1234-123456789abc].convert.convert.mkv");
    assert_eq!(result.base_name, "my video test");
    assert_eq!(result.extension, "mkv");
    assert!(result.has_convert);
}

#[test]
fn test_clean_filename_chinese() {
    let result = FilenameCleaner::new().clean("[1] 中文影片名稱.mp4");
    assert_eq!(result.base_name, "中文影片名稱");
    assert_eq!(result.extension, "mp4");
}

#[test]
fn test_clean_filename_no_extension() {
    let result = FilenameCleaner::new().clean("my video");
    assert_eq!(result.base_name, "my video");
    assert_eq!(result.extension, "");
}

#[test]
fn test_clean_filename_multiple_spaces() {
    let result = FilenameCleaner::new().clean("my    video   test.mp4");
    assert_eq!(result.base_name, "my video test");
}

#[test]
fn test_video_with_duration_sorting() {
    let videos = vec![
        VideoWithDuration {
            path: "/a.mp4".to_string(),
            duration_ms: 120_000,
            size: 1000,
        },
        VideoWithDuration {
            path: "/b.mp4".to_string(),
            duration_ms: 60_000,
            size: 500,
        },
        VideoWithDuration {
            path: "/c.mp4".to_string(),
            duration_ms: 180_000,
            size: 2000,
        },
    ];
    let sorted = VideoSorter::new().sort_by_duration(videos);
    assert_eq!(sorted[0].duration_ms, 60_000);
    assert_eq!(sorted[1].duration_ms, 120_000);
    assert_eq!(sorted[2].duration_ms, 180_000);
}

#[test]
fn test_video_sorter_new() {
    let sorter = VideoSorter::new();
    assert!(std::mem::size_of_val(&sorter) == 0);
}

#[test]
fn test_format_ms_clock() {
    assert_eq!(format_ms(0), "00:00:00");
    assert_eq!(format_ms(3_723_000), "01:02:03");
    assert_eq!(format_ms(59_999), "00:00:59");
}

#[test]
fn test_parse_out_time_ms() {
    // A plain count is in microseconds.
    assert_eq!(parse_out_time_ms("1234567"), Some(1_234));
    // The clock form, with and without a fraction.
    assert_eq!(parse_out_time_ms("01:02:03.500000"), Some(3_723_500));
    assert_eq!(parse_out_time_ms("00:00:05"), Some(5_000));
    assert_eq!(parse_out_time_ms("nonsense"), None);
    assert_eq!(parse_out_time_ms("1:2"), None);
}
