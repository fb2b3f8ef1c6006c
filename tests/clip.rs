use sentry_clip::{
    decimal_text, file_name, join, parent, parse_folder_stamp, playlist_text, BackendExit, Camera,
    CameraFile, ClipError, SentryClip, Timestamp, FILTER_HEAD, FILTER_TAIL,
};

fn at(hour: u32, minute: u32, second: u32) -> Timestamp {
    Timestamp { year: 2019, month: 7, day: 20, hour, minute, second, milli: 0 }
}

fn seg(camera: Camera, minute: u32, path: &str) -> Option<CameraFile> {
    Some(CameraFile::new(camera, at(12, minute, 0), path.to_string()))
}

fn paths(files: &[&CameraFile]) -> Vec<String> {
    files.iter().map(|f| f.path.clone()).collect()
}

fn event(parsed: Vec<Option<CameraFile>>) -> SentryClip {
    SentryClip::from_folder("/events/2019-07-20_12-34-56".to_string(), parsed).unwrap()
}

#[test]
fn segments_sorted_by_time_and_stable_on_ties() {
    let clip = event(vec![
        seg(Camera::Front, 35, "f35"),
        seg(Camera::Back, 34, "b34"),
        seg(Camera::Front, 34, "f34"),
        seg(Camera::LeftRepeater, 36, "l36"),
        seg(Camera::LeftRepeater, 34, "l34"),
    ]);
    let got: Vec<String> = clip.clips.iter().map(|f| f.path.clone()).collect();
    assert_eq!(got, vec!["b34", "f34", "l34", "f35", "l36"]);
    assert_eq!(clip.when, at(12, 34, 56));
    assert_eq!(clip.folder, "/events/2019-07-20_12-34-56");
}

#[test]
fn camera_selection_keeps_event_order() {
    let clip = event(vec![
        seg(Camera::Front, 36, "f36"),
        seg(Camera::Back, 34, "b34"),
        seg(Camera::Front, 34, "f34"),
        seg(Camera::Front, 35, "f35"),
    ]);
    assert_eq!(paths(&clip.files_per_camera(&Camera::Front)), vec!["f34", "f35", "f36"]);
    assert_eq!(paths(&clip.files_per_camera(&Camera::Back)), vec!["b34"]);
    assert!(clip.files_per_camera(&Camera::RightRepeater).is_empty());
}

#[test]
fn unreadable_file_is_dropped() {
    let clip = event(vec![
        seg(Camera::Front, 34, "a"),
        seg(Camera::Back, 34, "b"),
        None,
        seg(Camera::LeftRepeater, 34, "c"),
        seg(Camera::RightRepeater, 34, "d"),
    ]);
    assert_eq!(clip.clips.len(), 4);
    assert!(!clip.is_empty());
    let kept: Vec<String> = clip.clips.iter().map(|f| f.path.clone()).collect();
    assert_eq!(kept, vec!["a", "b", "c", "d"]);
}

#[test]
fn folder_name_must_be_a_timestamp() {
    let r = SentryClip::from_folder("/events/holiday".to_string(), vec![seg(Camera::Front, 1, "a")]);
    assert!(matches!(r, Err(ClipError::EventTimestamp)));
    let r = SentryClip::from_folder("/events/2019-02-30_12-00-00".to_string(), vec![]);
    assert!(matches!(r, Err(ClipError::EventTimestamp)));
}

#[test]
fn empty_event_is_reported_and_not_joined() {
    let clip = event(vec![None, None]);
    assert!(clip.is_empty());
    let r = clip.concatenation_job(&Camera::Front, &at(8, 0, 0));
    assert!(matches!(r, Err(ClipError::NoSegments)));
}

#[test]
fn playlist_lists_files_in_order() {
    let a = CameraFile::new(Camera::Front, at(1, 0, 0), "/e/a.mp4".to_string());
    let b = CameraFile::new(Camera::Front, at(1, 1, 0), "/e/b c.mp4".to_string());
    let text = playlist_text(&vec![&a, &b]);
    assert_eq!(text, "file '/e/a.mp4'\nfile '/e/b c.mp4'\n");
    let lines: Vec<&str> = text.lines().collect();
    assert_eq!(lines.len(), 2);
    let back: Vec<&str> = lines.iter().map(|l| &l[6..l.len() - 1]).collect();
    assert_eq!(back, vec!["/e/a.mp4", "/e/b c.mp4"]);
    assert_eq!(playlist_text(&vec![]), "");
}

#[test]
fn concatenation_job_names_and_arguments() {
    let clip = event(vec![
        seg(Camera::Front, 35, "/e/f35.mp4"),
        seg(Camera::Back, 34, "/e/b34.mp4"),
        seg(Camera::Front, 34, "/e/f34.mp4"),
    ]);
    let now = Timestamp { year: 2020, month: 1, day: 2, hour: 3, minute: 4, second: 5, milli: 67 };
    let job = clip.concatenation_job(&Camera::Front, &now).unwrap();
    assert_eq!(job.output_path, "/events/2019-07-20_12-34-56/2019-07-20_12-34-56-front-tmp.mp4");
    assert_eq!(
        job.playlist_path,
        "/tmp/tesla_playlist_tmp_20200102_030405067_20190720_123456000_front.txt"
    );
    assert_eq!(job.playlist, "file '/e/f34.mp4'\nfile '/e/f35.mp4'\n");
    assert_eq!(
        job.args,
        vec![
            "-f",
            "concat",
            "-safe",
            "0",
            "-i",
            "/tmp/tesla_playlist_tmp_20200102_030405067_20190720_123456000_front.txt",
            "-c",
            "copy",
            "/events/2019-07-20_12-34-56/2019-07-20_12-34-56-front-tmp.mp4",
        ]
    );
}

#[test]
fn concatenation_output_is_deterministic() {
    let clip = event(vec![seg(Camera::LeftRepeater, 34, "x")]);
    let first = clip.concatenation_job(&Camera::LeftRepeater, &at(9, 0, 0)).unwrap();
    let second = clip.concatenation_job(&Camera::LeftRepeater, &at(9, 0, 1)).unwrap();
    assert_eq!(first.output_path, second.output_path);
    assert_eq!(
        first.output_path,
        "/events/2019-07-20_12-34-56/2019-07-20_12-34-56-left_repeater-tmp.mp4"
    );
    assert_ne!(first.playlist_path, second.playlist_path);
}

#[test]
fn backend_exit_decides_outcome() {
    let clip = event(vec![seg(Camera::Back, 34, "x")]);
    let job = clip.concatenation_job(&Camera::Back, &at(9, 0, 0)).unwrap();
    let out = job.output_path.clone();
    assert_eq!(job.finish(BackendExit::Code(0)), Ok(out));
    let job = clip.concatenation_job(&Camera::Back, &at(9, 0, 0)).unwrap();
    assert_eq!(job.finish(BackendExit::Code(1)), Err(ClipError::BackendFailed(Some(1))));
    let job = clip.concatenation_job(&Camera::Back, &at(9, 0, 0)).unwrap();
    assert_eq!(job.finish(BackendExit::Killed), Err(ClipError::BackendFailed(None)));
}

#[test]
fn mosaic_file_beside_event_folder() {
    let clip = event(vec![seg(Camera::Front, 34, "x")]);
    assert_eq!(clip.mosaic_file().unwrap(), "/events/2019-07-20_12-34-56-mosaic.mp4");
}

#[test]
fn mosaic_without_parent_fails() {
    let mut clip = event(vec![seg(Camera::Front, 34, "x")]);
    clip.folder = "/".to_string();
    assert_eq!(clip.mosaic_file(), Err(ClipError::NoParent));
    let r = clip.mosaic_job(&vec![("a.mp4".to_string(), Camera::Front)]);
    assert!(matches!(r, Err(ClipError::NoParent)));
    clip.folder = String::new();
    assert_eq!(clip.mosaic_file(), Err(ClipError::NoParent));
}

#[test]
fn mosaic_job_layout_and_cleanup() {
    let clip = event(vec![seg(Camera::Back, 34, "b"), seg(Camera::Front, 35, "f")]);
    let inputs = vec![
        ("/t/front.mp4".to_string(), Camera::Front),
        ("/t/back.mp4".to_string(), Camera::Back),
        ("/t/left.mp4".to_string(), Camera::LeftRepeater),
        ("/t/right.mp4".to_string(), Camera::RightRepeater),
    ];
    let job = clip.mosaic_job(&inputs).unwrap();
    let filter = format!("{}1563626040{}", FILTER_HEAD, FILTER_TAIL);
    assert!(filter.contains("%{pts\\:gmtime\\:1563626040\\:%d-%m-%Y %T}"));
    let mosaic = "/events/2019-07-20_12-34-56-mosaic.mp4";
    assert_eq!(job.output_path, mosaic);
    assert_eq!(
        job.args,
        vec![
            "-filter_complex".to_string(),
            filter,
            "-i".to_string(),
            "/t/front.mp4".to_string(),
            "-i".to_string(),
            "/t/back.mp4".to_string(),
            "-i".to_string(),
            "/t/left.mp4".to_string(),
            "-i".to_string(),
            "/t/right.mp4".to_string(),
            "-c:v".to_string(),
            "libx264".to_string(),
            mosaic.to_string(),
        ]
    );
    assert_eq!(
        job.finish(BackendExit::Code(0)).unwrap(),
        vec!["/t/front.mp4", "/t/back.mp4", "/t/left.mp4", "/t/right.mp4"]
    );
}

#[test]
fn mosaic_rejects_a_fifth_input() {
    let clip = event(vec![seg(Camera::Front, 34, "x")]);
    let inputs: Vec<(String, Camera)> =
        (0..5).map(|i| (format!("/t/{}.mp4", i), Camera::Front)).collect();
    assert!(matches!(clip.mosaic_job(&inputs), Err(ClipError::TooManyInputs)));
    let fewer: Vec<(String, Camera)> = vec![("/t/a.mp4".to_string(), Camera::Front)];
    let job = clip.mosaic_job(&fewer).unwrap();
    assert_eq!(job.args.len(), 7);
    assert_eq!(job.inputs, vec!["/t/a.mp4"]);
}

#[test]
fn folder_stamp_parsing() {
    assert_eq!(parse_folder_stamp("2019-07-20_12-34-56"), Some(at(12, 34, 56)));
    assert_eq!(
        parse_folder_stamp("2020-02-29_00-00-00"),
        Some(Timestamp { year: 2020, month: 2, day: 29, hour: 0, minute: 0, second: 0, milli: 0 })
    );
    assert_eq!(parse_folder_stamp("2019-02-29_00-00-00"), None);
    assert_eq!(parse_folder_stamp("2019-07-20_24-00-00"), None);
    assert_eq!(parse_folder_stamp("2019-07-20 12-34-56"), None);
    assert_eq!(parse_folder_stamp("2019-07-20_12-34-5x"), None);
    assert_eq!(parse_folder_stamp("2019-07-20_12-34-567"), None);
    assert_eq!(parse_folder_stamp(""), None);
}

#[test]
fn decimal_text_of_integers() {
    assert_eq!(decimal_text(0), "0");
    assert_eq!(decimal_text(1563626096), "1563626096");
    assert_eq!(decimal_text(-60), "-60");
    assert_eq!(decimal_text(i64::MIN), i64::MIN.to_string());
}

#[test]
fn epoch_seconds_before_1970() {
    let mut clip = event(vec![]);
    clip.clips.push(CameraFile::new(
        Camera::Front,
        Timestamp { year: 1969, month: 12, day: 31, hour: 23, minute: 59, second: 0, milli: 500 },
        "x".to_string(),
    ));
    let job = clip.mosaic_job(&vec![]).unwrap();
    assert_eq!(job.args[1], format!("{}-60{}", FILTER_HEAD, FILTER_TAIL));
}

#[test]
fn path_helpers() {
    assert_eq!(join("/a/b", "c"), "/a/b/c");
    assert_eq!(join("/a/b/", "c"), "/a/b/c");
    assert_eq!(join("", "c"), "c");
    assert_eq!(join("/a", "/c"), "/c");
    assert_eq!(parent("/a/b"), Some("/a".to_string()));
    assert_eq!(parent("/a/b/"), Some("/a".to_string()));
    assert_eq!(parent("/a"), Some("/".to_string()));
    assert_eq!(parent("a"), Some(String::new()));
    assert_eq!(parent("/"), None);
    assert_eq!(parent("a//b"), Some("a".to_string()));
    assert_eq!(parent("//b"), Some("/".to_string()));
    assert_eq!(parent("/a/b//c/"), Some("/a/b".to_string()));
    assert_eq!(parent(""), None);
    assert_eq!(file_name("/a/2019-07-20_12-34-56/"), "2019-07-20_12-34-56");
    assert_eq!(file_name("x"), "x");
}

#[test]
fn segment_file_names() {
    let f = CameraFile::from_path("/e/2019-07-20_12-34-56/2019-07-20_12-35-00-left_repeater.mp4".to_string())
        .unwrap();
    assert_eq!(f.camera, Camera::LeftRepeater);
    assert_eq!(f.start_time, at(12, 35, 0));
    assert_eq!(f.path, "/e/2019-07-20_12-34-56/2019-07-20_12-35-00-left_repeater.mp4");
    let b = CameraFile::from_path("2019-07-20_12-35-00-back.mp4".to_string()).unwrap();
    assert_eq!(b.camera, Camera::Back);
    assert!(CameraFile::from_path("/e/2019-07-20_12-35-00-side.mp4".to_string()).is_none());
    assert!(CameraFile::from_path("/e/2019-07-20_12-35-00_front.mp4".to_string()).is_none());
    assert!(CameraFile::from_path("/e/2019-13-20_12-35-00-front.mp4".to_string()).is_none());
    assert!(CameraFile::from_path("/e/notes.txt".to_string()).is_none());
}
