//! Per-run configuration: the input video, the output root, and one entry
//! per output project.
use vstd::prelude::*;

verus! {

/// Settings for one output project.
///
/// `frame_start`, `frame_end` and `test_frame` are 1-based frame numbers;
/// when present they must be at least 1. The resolved 0-based index range
/// is the half-open `[frame_start - 1, frame_end - 1)`, defaulting to
/// "from the first frame" and "to the last".
pub struct ProjectConfig {
    pub border_width: u16,
    pub border_color: u8,
    pub invert_colors: Option<bool>,
    pub frame_start: Option<u32>,
    pub frame_end: Option<u32>,
    pub namespace: String,
    pub make_frames: bool,
    pub frame_dfs_dir: String,
    pub make_grid: bool,
    pub grid_df_dir: String,
    pub make_tp: bool,
    pub tp_height: i16,
    pub tp_dir: String,
    pub test_frame: Option<u32>,
}

impl ProjectConfig {
    /// Frame numbers are 1-based where present, and the frame directory is
    /// a `./`-prefixed relative path.
    pub open spec fn well_formed(&self) -> bool {
        &&& (self.frame_start matches Some(v) ==> v >= 1)
        &&& (self.frame_end matches Some(v) ==> v >= 1)
        &&& (self.test_frame matches Some(v) ==> v >= 1)
        &&& self.frame_dfs_dir@.len() >= 2
        &&& self.frame_dfs_dir@[0] == '.'
        &&& self.frame_dfs_dir@[1] == '/'
    }
}

impl Default for ProjectConfig {
    fn default() -> (r: ProjectConfig)
        ensures
            r.border_width == 32,
            r.border_color == 255,
            r.invert_colors is None,
            r.frame_start == Some(1u32),
            r.frame_end is None,
            r.namespace@ == "namespace"@,
            r.make_frames,
            r.frame_dfs_dir@ == "./frames"@,
            r.make_grid,
            r.grid_df_dir@ == "./"@,
            r.make_tp,
            r.tp_height == 220,
            r.tp_dir@ == "./frame_tp"@,
            r.test_frame == Some(1u32),
            r.well_formed(),
    {
        proof {
            reveal_strlit("./frames");
        }
        ProjectConfig {
            border_width: 32,
            border_color: 255,  // white
            invert_colors: None,
            frame_start: Some(1),
            frame_end: None,
            namespace: String::from_str("namespace"),
            make_frames: true,
            frame_dfs_dir: String::from_str("./frames"),
            make_grid: true,
            grid_df_dir: String::from_str("./"),
            make_tp: true,
            tp_height: 220,
            tp_dir: String::from_str("./frame_tp"),
            test_frame: Some(1),
        }
    }
}

/// The whole configuration of a run.
pub struct Config {
    pub video_file: String,
    pub output_root_dir: String,
    pub projects: Vec<ProjectConfig>,
}

impl Config {
    pub open spec fn well_formed(&self) -> bool {
        forall|i: int| 0 <= i < self.projects@.len() ==> self.projects@[i].well_formed()
    }
}

impl Default for Config {
    fn default() -> (r: Config)
        ensures
            r.video_file@ == "input.mp4"@,
            r.output_root_dir@ == "./output"@,
            r.projects@.len() == 1,
            r.projects@[0].border_width == 32,
            r.projects@[0].border_color == 255,
            r.projects@[0].frame_start == Some(1u32),
            r.projects@[0].frame_end is None,
            r.projects@[0].make_frames && r.projects@[0].make_grid && r.projects@[0].make_tp,
            r.projects@[0].tp_height == 220,
            r.well_formed(),
    {
        let project: ProjectConfig = ProjectConfig::default();
        Config {
            video_file: String::from_str("input.mp4"),
            output_root_dir: String::from_str("./output"),
            projects: vec![project],
        }
    }
}

} // verus!
