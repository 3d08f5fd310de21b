use framestitch::events::select_event_dirs;
use framestitch::events::DirEntry;
use framestitch::frames::order_frames;
use framestitch::plan::build_encoder_plan;
use framestitch::plan::plan_event_video;
use framestitch::rate::Rate;

fn entry(name: &str, is_directory: bool) -> DirEntry {
    DirEntry { name: name.to_string(), is_directory }
}

#[test]
fn three_frames_one_second_apart() {
    // base directory holds 42/ with three frames at 0s, 1s, 2s
    let entries = vec![entry("42", true), entry("videos", true)];
    let events = select_event_dirs(&entries);
    assert_eq!(events, vec!["42".to_string()]);

    let listing = vec![
        "0-capture.jpg".to_string(),
        "1-capture.jpg".to_string(),
        "2-capture.jpg".to_string(),
    ];
    let frames = order_frames(&listing);
    assert_eq!(frames.len(), 3);

    let timestamps = vec![Some(0u64), Some(1_000_000_000u64), Some(2_000_000_000u64)];
    let plan = plan_event_video("base/42", "base/videos", "42", &timestamps);
    assert_eq!(plan.program, "ffmpeg");
    assert_eq!(
        plan.args,
        vec![
            "-framerate".to_string(),
            "1".to_string(),
            "-i".to_string(),
            "base/42/%d-capture.jpg".to_string(),
            "-c:v".to_string(),
            "libvpx-vp9".to_string(),
            "-pix_fmt".to_string(),
            "yuv420p".to_string(),
            "base/videos/42-video.webm".to_string(),
        ]
    );
    assert_eq!(plan.output_path, "base/videos/42-video.webm");
}

#[test]
fn non_digit_directories_are_skipped() {
    let entries = vec![entry("notanum", true), entry("007", true)];
    let events = select_event_dirs(&entries);
    assert_eq!(events, vec!["007".to_string()]);
}

#[test]
fn event_without_frames_still_gets_a_plan() {
    // no .jpg files: no timestamps, estimation fails, default rate 24
    let listing = vec!["notes.txt".to_string()];
    let frames = order_frames(&listing);
    assert_eq!(frames, Vec::<String>::new());

    let timestamps: Vec<Option<u64>> = vec![];
    let plan = plan_event_video("base/9", "base/videos", "9", &timestamps);
    assert_eq!(plan.args[0], "-framerate");
    assert_eq!(plan.args[1], "24");
    assert_eq!(plan.args[3], "base/9/%d-capture.jpg");
    assert_eq!(plan.output_path, "base/videos/9-video.webm");
}

#[test]
fn explicit_rate_builds_the_fixed_argument_list() {
    let rate = Rate { num: 30, den: 1 };
    let plan = build_encoder_plan("ev", "out", "7", &rate);
    assert_eq!(plan.program, "ffmpeg");
    assert_eq!(plan.args.len(), 9);
    assert_eq!(plan.args[1], "30");
    assert_eq!(plan.args[8], "out/7-video.webm");
}
