use video_to_df::config::{Config, ProjectConfig};
use video_to_df::error::{CliError, ImplError, V2dfError};
use video_to_df::functions::{
    fold_batch, process_single_frame, test_project_n_from_config, write_json_frames_parallel,
    write_project_n_from_config, write_projects_from_config, write_tp_functions,
};
use video_to_df::monoframe::MonoFrame;
use video_to_df::monovideo::MonoVideo;
use video_to_df::output::OutputFile;

fn small_project() -> ProjectConfig {
    let mut p = ProjectConfig::default();
    p.border_width = 1;
    p.border_color = 0;
    p.namespace = String::from("ns");
    p.frame_start = None;
    p.frame_end = None;
    p.test_frame = None;
    p
}

fn small_config() -> Config {
    let mut config = Config::default();
    config.projects = vec![small_project()];
    config
}

fn two_frames() -> Vec<MonoFrame> {
    vec![
        MonoFrame::new(vec![0, 255, 0, 255], 2, 2),
        MonoFrame::new(vec![255, 255, 255, 255], 2, 2),
    ]
}

#[test]
fn whole_project_success_layout() {
    let frames = two_frames();
    let (files, err) = write_projects_from_config(&frames, &small_config());
    assert!(err.is_none());
    // Two frame records, one grid record, two placement commands.
    assert_eq!(files.len(), 5);
    assert_eq!(files[0].path, "./frames/1.json");
    assert_eq!(files[1].path, "./frames/2.json");
    assert_eq!(files[2].path, ".//all_frames.json");
    assert_eq!(files[3].path, "./frame_tp/1.mcfunction");
    assert_eq!(files[4].path, "./frame_tp/2.mcfunction");

    // The frame records carry the bordered dimensions of the first frame.
    let v: serde_json::Value = serde_json::from_str(&files[0].contents).unwrap();
    assert_eq!(v["argument"]["argument"]["x_size"], 4);
    assert_eq!(v["argument"]["argument"]["z_size"], 4);

    // One grid reference per processed index, matching the record files.
    let g: serde_json::Value = serde_json::from_str(&files[2].contents).unwrap();
    let args = g["grid_cell_args"].as_array().unwrap();
    assert_eq!(args.len(), 2);
    assert_eq!(args[0], "ns:frames/1");
    assert_eq!(args[1], "ns:frames/2");

    // Placement commands follow the spiral scaled by twice the bordered
    // dimensions plus half a frame: index 0 at the origin cell, index 1 at
    // cell (1, 0).
    assert_eq!(files[3].contents, "tp @a 2 220 2 180 90");
    assert_eq!(files[4].contents, "tp @a 10 220 2 180 90");
}

#[test]
fn toggles_disable_outputs() {
    let frames = two_frames();
    let mut config = small_config();
    config.projects[0].make_frames = false;
    config.projects[0].make_tp = false;
    let (files, err) = write_projects_from_config(&frames, &config);
    assert!(err.is_none());
    assert_eq!(files.len(), 1);
    assert_eq!(files[0].path, ".//all_frames.json");
}

#[test]
fn out_of_range_request_is_reported() {
    // min(start, end) beyond the frame count is a reported range error,
    // never a panic.
    let frames = two_frames();
    let mut config = small_config();
    config.projects[0].frame_start = Some(5);
    config.projects[0].frame_end = Some(7);
    let (files, err) = write_projects_from_config(&frames, &config);
    assert!(files.is_empty());
    match err {
        Some(V2dfError::Cli(CliError::InvalidFrameRange(start, end, count))) => {
            assert_eq!((start, end, count), (5, 7, 2));
        },
        other => panic!("expected a range error, got {other:?}"),
    }
}

#[test]
fn partial_range_is_clipped() {
    // An end past the collection processes only the frames that exist.
    let frames = two_frames();
    let mut config = small_config();
    config.projects[0].frame_start = Some(2);
    config.projects[0].frame_end = Some(100);
    config.projects[0].make_grid = false;
    config.projects[0].make_tp = false;
    let (files, err) = write_projects_from_config(&frames, &config);
    assert!(err.is_none());
    assert_eq!(files.len(), 1);
    assert_eq!(files[0].path, "./frames/2.json");
}

#[test]
fn empty_collection_is_reported() {
    let frames: Vec<MonoFrame> = Vec::new();
    let (files, err) = write_projects_from_config(&frames, &small_config());
    assert!(files.is_empty());
    assert!(matches!(err, Some(V2dfError::Cli(CliError::EmptyFrameCollection))));
}

#[test]
fn zero_area_frame_fails_batch_but_keeps_successes() {
    // With no border, a zero-area frame is the one way a batch unit can
    // fail: the batch still attempts every frame, keeps the successful
    // record, and reports the zero-area rejection.
    let frames = vec![
        MonoFrame::new(vec![0, 255, 0, 255], 2, 2),
        MonoFrame::new(Vec::new(), 0, 0),
    ];
    let mut config = small_config();
    config.projects[0].border_width = 0;
    let (files, err) = write_projects_from_config(&frames, &config);
    assert_eq!(files.len(), 1);
    assert_eq!(files[0].path, "./frames/1.json");
    assert!(matches!(err, Some(V2dfError::Impl(ImplError::EmptyDistanceField))));
}

#[test]
fn missing_project_is_reported() {
    let frames = two_frames();
    let (files, err) = write_project_n_from_config(&frames, 3, &small_config());
    assert!(files.is_empty());
    assert!(matches!(err, Some(V2dfError::Impl(ImplError::AccessProjectConfig))));
}

#[test]
fn test_mode_single_frame() {
    let frames = two_frames();
    let (files, err) = test_project_n_from_config(&frames, 0, &small_config());
    assert!(err.is_none());
    // One frame record for index 0, the grid record, one placement command.
    assert_eq!(files.len(), 3);
    assert_eq!(files[0].path, "./frames/1.json");
    assert_eq!(files[1].path, ".//all_frames.json");
    assert_eq!(files[2].path, "./frame_tp/1.mcfunction");
}

#[test]
fn test_mode_bad_index_is_reported() {
    let frames = two_frames();
    let mut config = small_config();
    config.projects[0].test_frame = Some(9);
    let (files, err) = test_project_n_from_config(&frames, 0, &config);
    assert!(files.is_empty());
    match err {
        Some(V2dfError::Cli(CliError::InvalidTestFrame(frame, count))) => {
            assert_eq!((frame, count), (9, 2));
        },
        other => panic!("expected a test-frame error, got {other:?}"),
    }
}

#[test]
fn parallel_batch_matches_sequential() {
    let frames = two_frames();
    let (files, err) = write_json_frames_parallel(&frames, (4, 4), (0, 2), 1, 0, "./frames");
    assert!(err.is_none());
    assert_eq!(files.len(), 2);
    for (i, file) in files.iter().enumerate() {
        let sequential = process_single_frame(&frames[i], (4, 4), i, 1, 0).unwrap();
        assert_eq!(file.path, format!("./frames/{}", sequential.path));
        assert_eq!(file.contents, sequential.contents);
    }
}

#[test]
fn fold_batch_keeps_successes_and_first_error() {
    let ok1 = OutputFile { path: String::from("a"), contents: String::from("1") };
    let ok2 = OutputFile { path: String::from("b"), contents: String::from("2") };
    let results = vec![
        Ok(ok1),
        Err(ImplError::FileCompression(String::from("first"))),
        Ok(ok2),
        Err(ImplError::FileCompression(String::from("second"))),
    ];
    let (files, err) = fold_batch(results);
    assert_eq!(files.len(), 2);
    assert_eq!(files[0].path, "a");
    assert_eq!(files[1].path, "b");
    match err {
        Some(ImplError::FileCompression(msg)) => assert_eq!(msg, "first"),
        other => panic!("expected the first failure, got {other:?}"),
    }
}

#[test]
fn fold_batch_all_ok() {
    let results: Vec<Result<OutputFile, ImplError>> = vec![
        Ok(OutputFile { path: String::from("x"), contents: String::from("y") }),
    ];
    let (files, err) = fold_batch(results);
    assert!(err.is_none());
    assert_eq!(files.len(), 1);
}

#[test]
fn tp_files_for_range() {
    let files = write_tp_functions((0, 3), (4, 4), 220, "./frame_tp");
    assert_eq!(files.len(), 3);
    assert_eq!(files[0].path, "./frame_tp/1.mcfunction");
    assert_eq!(files[2].path, "./frame_tp/3.mcfunction");
    // Index 2 sits at spiral cell (1, 1): x = 1*2*4 + 2 = 10, z = 10.
    assert_eq!(files[2].contents, "tp @a 10 220 10 180 90");
}

#[test]
fn monovideo_slices_frames() {
    let video = MonoVideo::new(vec![1, 2, 3, 4, 5, 6, 7, 8], 2, 2);
    assert_eq!(video.len(), 2);
    assert_eq!(video.get_frame(0), Some(&[1u8, 2, 3, 4][..]));
    assert_eq!(video.get_frame(1), Some(&[5u8, 6, 7, 8][..]));
    assert_eq!(video.get_frame(2), None);
}

#[test]
fn monovideo_partial_trailing_frame() {
    let video = MonoVideo::new(vec![1, 2, 3, 4, 5], 2, 2);
    assert_eq!(video.len(), 1);
    assert_eq!(video.get_frame(1), None);
}
