use clip_batcher::batch::BatchState;
use clip_batcher::command::{merge_command, multi_file_command, single_file_command, usable_audio};
use clip_batcher::discovery::{
    apply_order, has_video_extension, is_valid_single_input, select_videos, DirEntryInfo,
};
use clip_batcher::lexical::{lex_less, sort_distinct};
use clip_batcher::plan::{
    dispatch_ranges, dropped_count, generate_output_path, jobs_per_task, group_size, plan_jobs, single_output_path, PlanError,
};
use clip_batcher::probe::{
    canvas_for, dimensions_from_streams, probe_dimensions, ProbeError, StreamFields,
    VideoDimensions,
};
use clip_batcher::progress::{line_progress, parse_progress, progress_percent};

fn names(n: usize) -> Vec<String> {
    (0..n).map(|i| format!("/in/clip_{}.mp4", i)).collect()
}

fn strs(v: &[&str]) -> Vec<String> {
    v.iter().map(|s| s.to_string()).collect()
}

#[test]
fn progress_line_at_half_of_cap() {
    let line = "frame=10 time=00:01:05.00 bitrate=1000kbits/s";
    assert_eq!(parse_progress(line), Some(65));
    assert_eq!(line_progress(line, 130), Some(50));
}

#[test]
fn progress_line_without_marker() {
    assert_eq!(parse_progress("frame=10 fps=30 bitrate=1000kbits/s"), None);
    assert_eq!(line_progress("frame=10 fps=30", 130), None);
}

#[test]
fn progress_line_forms() {
    assert_eq!(parse_progress("time=01:00:00"), Some(3600));
    assert_eq!(parse_progress("size=1kB time=00:00:07.99 x"), Some(7));
    assert_eq!(parse_progress("time=00:00:07. x"), Some(7));
    assert_eq!(parse_progress("time=00:07 x"), None);
    assert_eq!(parse_progress("time=00:00:07:00"), None);
    assert_eq!(parse_progress("time=aa:00:07"), None);
    assert_eq!(parse_progress("time=N/A bitrate=N/A"), None);
    assert_eq!(parse_progress("time=00::07"), None);
    assert_eq!(parse_progress("time=00:00:0x7"), None);
    assert_eq!(parse_progress("time=99999999:00:00"), None);
}

#[test]
fn percent_of_cap() {
    assert_eq!(progress_percent(65, 130), Some(50));
    assert_eq!(progress_percent(1, 3), Some(33));
    assert_eq!(progress_percent(10, 0), None);
    assert_eq!(progress_percent(130, 130), Some(100));
    assert_eq!(progress_percent(300, 130), Some(100));
    assert_eq!(line_progress("time=00:05:00.00", 130), Some(100));
    assert_eq!(line_progress("time=00:00:10.00", 0), None);
}

#[test]
fn group_size_from_duration() {
    assert_eq!(group_size(100), Ok(25));
    assert_eq!(group_size(7), Ok(1));
    assert_eq!(group_size(3), Err(PlanError::InvalidConfig));
    assert_eq!(group_size(0), Err(PlanError::InvalidConfig));
}

#[test]
fn output_path_naming() {
    assert_eq!(generate_output_path("/out", 0), "/out/output_0.mp4");
    assert_eq!(generate_output_path("/out", 42), "/out/output_42.mp4");
}

#[test]
fn partition_drops_trailing_group() {
    let files = names(7);
    let jobs = plan_jobs(&files, 3);
    assert_eq!(jobs.len(), 2);
    assert_eq!(jobs[0].index, 0);
    assert_eq!(jobs[0].inputs, files[0..3].to_vec());
    assert_eq!(jobs[1].index, 1);
    assert_eq!(jobs[1].inputs, files[3..6].to_vec());
    assert!(jobs.iter().all(|j| !j.inputs.contains(&files[6])));
}

#[test]
fn partition_fewer_files_than_group() {
    assert_eq!(plan_jobs(&names(4), 5).len(), 0);
    assert_eq!(plan_jobs(&names(5), 5).len(), 1);
}

#[test]
fn batch_of_250_files_all_succeed() {
    let files = names(250);
    let g = group_size(100).unwrap();
    assert_eq!(g, 25);
    let jobs = plan_jobs(&files, g);
    assert_eq!(jobs.len(), 10);
    assert_eq!(files.len() - jobs.len() * g, 0);
    let mut state = BatchState::new("/out".to_string(), jobs.len());
    let mut last = None;
    for job in &jobs {
        last = state.record_success(job.index);
    }
    assert_eq!(last, Some(100));
    let expected: Vec<String> = (0..10).map(|i| format!("/out/output_{}.mp4", i)).collect();
    assert_eq!(state.completed_outputs(), expected);
    assert!(state.failures().is_empty());
}

#[test]
fn failed_job_is_only_in_failures() {
    let jobs = plan_jobs(&names(40), 10);
    let mut state = BatchState::new("/out".to_string(), jobs.len());
    assert_eq!(state.record_success(0), Some(25));
    assert!(state.record_failure(1, "transcoder failed".to_string()));
    assert_eq!(state.record_success(2), Some(50));
    assert_eq!(state.record_success(3), Some(75));
    let outputs = state.completed_outputs();
    assert_eq!(outputs, strs(&["/out/output_0.mp4", "/out/output_2.mp4", "/out/output_3.mp4"]));
    let failures = state.failures();
    assert_eq!(failures, vec![("/out/output_1.mp4".to_string(), "transcoder failed".to_string())]);
    assert_eq!(outputs.len(), state.total_jobs() - state.failed);
}

#[test]
fn finished_job_is_not_recorded_twice() {
    let mut state = BatchState::new("/out".to_string(), 2);
    assert_eq!(state.record_success(0), Some(50));
    assert_eq!(state.record_success(0), None);
    assert!(!state.record_failure(0, "late".to_string()));
    assert_eq!(state.record_success(5), None);
    assert_eq!(state.processed, 1);
    assert_eq!(state.failed, 0);
}

#[test]
fn outputs_in_lexicographic_order() {
    let mut state = BatchState::new("/o".to_string(), 12);
    for i in [11, 2, 10, 1] {
        state.record_success(i);
    }
    assert_eq!(
        state.completed_outputs(),
        strs(&["/o/output_1.mp4", "/o/output_10.mp4", "/o/output_11.mp4", "/o/output_2.mp4"])
    );
}

#[test]
fn lexicographic_comparison_and_sort() {
    assert!(lex_less(&"ab".to_string(), &"b".to_string()));
    assert!(lex_less(&"a".to_string(), &"ab".to_string()));
    assert!(!lex_less(&"ab".to_string(), &"ab".to_string()));
    assert!(!lex_less(&"b".to_string(), &"ab".to_string()));
    assert_eq!(sort_distinct(strs(&["c", "a", "b"])), strs(&["a", "b", "c"]));
}

#[test]
fn random_order_keeps_the_files() {
    let files = names(50);
    let mut shuffled = files.clone();
    apply_order(&mut shuffled, &Some("random".to_string()));
    assert_eq!(shuffled.len(), files.len());
    let mut a = shuffled.clone();
    a.sort();
    let mut b = files.clone();
    b.sort();
    assert_eq!(a, b);
}

#[test]
fn other_orders_keep_listing_order() {
    let files = names(20);
    let mut kept = files.clone();
    apply_order(&mut kept, &Some("name".to_string()));
    assert_eq!(kept, files);
    apply_order(&mut kept, &None);
    assert_eq!(kept, files);
}

#[test]
fn single_file_without_audio_copies_streams() {
    assert_eq!(usable_audio("/a/song.mp3", true, 0), None);
    assert_eq!(usable_audio("/a/song.mp3", false, 10), None);
    let args = single_file_command("/in/a.mp4", "/out/output.mp4", 0, &None);
    assert_eq!(args, strs(&["-i", "/in/a.mp4", "-c", "copy", "-y", "/out/output.mp4"]));
}

#[test]
fn single_file_with_audio_reencodes_audio() {
    let audio = usable_audio("/a/song.mp3", true, 2048);
    assert_eq!(audio, Some("/a/song.mp3".to_string()));
    let args = single_file_command("/in/a.mp4", "/out/output.mp4", 30, &audio);
    assert_eq!(
        args,
        strs(&[
            "-i", "/in/a.mp4", "-i", "/a/song.mp3", "-c:v", "copy", "-c:a", "aac", "-b:a",
            "128k", "-shortest", "-t", "30", "-y", "/out/output.mp4"
        ])
    );
}

#[test]
fn multi_file_merge_arguments() {
    let inputs = strs(&["/in/a.mp4", "/in/b.mp4"]);
    let dims = VideoDimensions { width: 1280, height: 720 };
    let args = multi_file_command(&inputs, "/out/output_0.mp4", 8, &Some("/m.mp3".to_string()), &dims);
    let graph = "[0:v]setpts=PTS-STARTPTS,scale=1920:1080:force_original_aspect_ratio=decrease,pad=1920:1080:(ow-iw)/2:(oh-ih)/2[v0];\
[1:v]setpts=PTS-STARTPTS,scale=1920:1080:force_original_aspect_ratio=decrease,pad=1920:1080:(ow-iw)/2:(oh-ih)/2[v1];\
[v0][v1]concat=n=2:v=1:a=0[outv]";
    assert_eq!(
        args,
        strs(&[
            "-i", "/in/a.mp4", "-i", "/in/b.mp4", "-i", "/m.mp3", "-filter_complex", graph,
            "-map", "[outv]", "-map", "2:a", "-t", "8", "-c:v", "libx264", "-preset", "veryfast",
            "-crf", "26", "-c:a", "aac", "-b:a", "128k", "-threads", "0", "-shortest", "-y",
            "/out/output_0.mp4"
        ])
    );
}

#[test]
fn multi_file_portrait_without_audio() {
    let inputs = strs(&["/in/a.mp4", "/in/b.mp4"]);
    let dims = VideoDimensions { width: 720, height: 1280 };
    let args = multi_file_command(&inputs, "/o.mp4", 0, &None, &dims);
    assert!(args[5].contains("scale=1080:1920"));
    assert_eq!(&args[6..], &strs(&[
        "-map", "[outv]", "-c:v", "libx264", "-preset", "veryfast", "-crf", "26", "-threads",
        "0", "-shortest", "-y", "/o.mp4"
    ])[..]);
}

#[test]
fn merge_command_dispatch() {
    let none: Option<VideoDimensions> = None;
    assert_eq!(merge_command(&vec![], "/o.mp4", 0, &None, &none), None);
    assert_eq!(
        merge_command(&strs(&["/a.mp4"]), "/o.mp4", 0, &None, &none),
        Some(strs(&["-i", "/a.mp4", "-c", "copy", "-y", "/o.mp4"]))
    );
    assert_eq!(merge_command(&strs(&["/a.mp4", "/b.mp4"]), "/o.mp4", 0, &None, &none), None);
    let dims = Some(VideoDimensions { width: 2, height: 1 });
    assert!(merge_command(&strs(&["/a.mp4", "/b.mp4"]), "/o.mp4", 0, &None, &dims).is_some());
}

#[test]
fn canvas_orientation() {
    assert_eq!(canvas_for(&VideoDimensions { width: 1920, height: 1080 }), (1920, 1080));
    assert_eq!(canvas_for(&VideoDimensions { width: 1080, height: 1080 }), (1080, 1920));
    assert_eq!(canvas_for(&VideoDimensions { width: 720, height: 1280 }), (1080, 1920));
}

#[test]
fn dimensions_of_first_video_stream() {
    let streams = vec![
        StreamFields { codec_type: Some("audio".to_string()), width: None, height: None },
        StreamFields { codec_type: Some("video".to_string()), width: Some(640), height: Some(480) },
        StreamFields { codec_type: Some("video".to_string()), width: Some(1), height: Some(2) },
    ];
    assert_eq!(dimensions_from_streams(&streams), Ok(VideoDimensions { width: 640, height: 480 }));
    let missing = vec![StreamFields { codec_type: Some("video".to_string()), width: Some(1), height: None }];
    assert_eq!(dimensions_from_streams(&missing), Err(ProbeError::MissingHeight));
    assert_eq!(dimensions_from_streams(&vec![]), Err(ProbeError::NoVideoStream));
}

#[test]
fn probe_report_parsing() {
    let report = r#"{"streams":[{"codec_type":"audio"},{"codec_type":"video","width":1280,"height":720}],"format":{}}"#;
    assert_eq!(probe_dimensions(report), Ok(VideoDimensions { width: 1280, height: 720 }));
    assert_eq!(probe_dimensions("not json"), Err(ProbeError::Unreadable));
    assert_eq!(probe_dimensions(r#"{"format":{}}"#), Err(ProbeError::NoVideoStream));
    assert_eq!(
        probe_dimensions(r#"{"streams":[{"codec_type":"video","height":5}]}"#),
        Err(ProbeError::MissingWidth)
    );
}

#[test]
fn video_extensions() {
    for name in ["a.mp4", "b.mov", "c.avi", "d.wmv", "e.flv", "f.mkv", "x.y.mp4"] {
        assert!(has_video_extension(name), "{}", name);
    }
    for name in ["a.MP4", "a.txt", "mp4", ".mp4", "a.", "a.mp4.bak"] {
        assert!(!has_video_extension(name), "{}", name);
    }
}

#[test]
fn video_selection_keeps_listing_order() {
    let entry = |p: &str, n: &str, f: bool| DirEntryInfo {
        path: p.to_string(),
        file_name: n.to_string(),
        is_file: f,
    };
    let entries = vec![
        entry("/d/b.mkv", "b.mkv", true),
        entry("/d/notes.txt", "notes.txt", true),
        entry("/d/sub.mp4", "sub.mp4", false),
        entry("/d/a.mp4", "a.mp4", true),
    ];
    assert_eq!(select_videos(&entries), strs(&["/d/b.mkv", "/d/a.mp4"]));
}

#[test]
fn single_input_validation() {
    assert!(is_valid_single_input("clip.mp4", true));
    assert!(!is_valid_single_input("clip.mp4", false));
    assert!(!is_valid_single_input("clip.mov", true));
    assert!(!is_valid_single_input(".mp4", true));
}

#[test]
fn dispatch_ranges_cover_all_jobs() {
    assert_eq!(dispatch_ranges(10, 4), vec![(0, 4), (4, 8), (8, 10)]);
    assert_eq!(dispatch_ranges(8, 4), vec![(0, 4), (4, 8)]);
    assert_eq!(dispatch_ranges(0, 4), vec![]);
    assert_eq!(dispatch_ranges(3, 1), vec![(0, 1), (1, 2), (2, 3)]);
}

#[test]
fn single_output_naming() {
    assert_eq!(single_output_path("/out"), "/out/output.mp4");
}

#[test]
fn planning_helpers() {
    assert_eq!(jobs_per_task(100, 25), 4);
    assert_eq!(jobs_per_task(100, 30), 3);
    assert_eq!(jobs_per_task(100, 250), 1);
    assert_eq!(dropped_count(250, 25), 0);
    assert_eq!(dropped_count(7, 3), 1);
    assert_eq!(dropped_count(2, 5), 2);
}

#[test]
fn failures_in_index_order() {
    let mut state = BatchState::new("/out".to_string(), 5);
    assert!(state.record_failure(3, "b".to_string()));
    assert!(state.record_failure(1, "a".to_string()));
    state.record_success(2);
    assert_eq!(
        state.failures(),
        vec![
            ("/out/output_1.mp4".to_string(), "a".to_string()),
            ("/out/output_3.mp4".to_string(), "b".to_string()),
        ]
    );
}

#[test]
fn decimal_rendering_in_paths() {
    assert_eq!(generate_output_path("d", 9), "d/output_9.mp4");
    assert_eq!(generate_output_path("d", 10), "d/output_10.mp4");
    assert_eq!(generate_output_path("d", 1234567890), "d/output_1234567890.mp4");
    assert_eq!(generate_output_path("d", usize::MAX), format!("d/output_{}.mp4", usize::MAX));
}
