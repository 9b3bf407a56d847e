use video_to_df::command::Command;
use video_to_df::config::{Config, ProjectConfig};
use video_to_df::error::{CliError, ImplError};
use video_to_df::functions::create_df_namespace;
use video_to_df::output::{frame_record_json, grid_record_json, tp_line};

#[test]
fn frame_record_matches_serde_pretty_layout() {
    let record = frame_record_json(34, 36, "AAECAw==");
    // Bit-for-bit the serde_json pretty form: re-serializing the parsed
    // value reproduces the exact text.
    let value: serde_json::Value = serde_json::from_str(&record).unwrap();
    assert_eq!(serde_json::to_string_pretty(&value).unwrap(), record);
    assert_eq!(value["type"], "minecraft:flat_cache");
    assert_eq!(value["argument"]["type"], "minecraft:cache_2d");
    let inner = &value["argument"]["argument"];
    assert_eq!(inner["type"], "moredfs:single_channel_image_tessellation");
    assert_eq!(inner["x_size"], 34);
    assert_eq!(inner["z_size"], 36);
    assert_eq!(inner["deflated_frame_data"], "AAECAw==");
}

#[test]
fn grid_record_matches_serde_pretty_layout() {
    let record = grid_record_json(34, 36, "ns:frames/", 2, 5);
    let value: serde_json::Value = serde_json::from_str(&record).unwrap();
    assert_eq!(serde_json::to_string_pretty(&value).unwrap(), record);
    assert_eq!(value["type"], "moredfs:gapped_grid_square_spiral");
    assert_eq!(value["spacing"], 1);
    assert_eq!(value["out_of_bounds_argument"], 256);
    assert_eq!(value["x_size"], 34);
    assert_eq!(value["z_size"], 36);
    // One reference per index of [2, 5), labelled with 1-based numbers.
    let args = value["grid_cell_args"].as_array().unwrap();
    assert_eq!(args.len(), 3);
    assert_eq!(args[0], "ns:frames/3");
    assert_eq!(args[1], "ns:frames/4");
    assert_eq!(args[2], "ns:frames/5");
}

#[test]
fn grid_record_empty_range() {
    let record = grid_record_json(8, 8, "ns:", 5, 5);
    let value: serde_json::Value = serde_json::from_str(&record).unwrap();
    assert_eq!(serde_json::to_string_pretty(&value).unwrap(), record);
    assert_eq!(value["grid_cell_args"].as_array().unwrap().len(), 0);
}

#[test]
fn grid_record_escapes_namespace() {
    // A namespace holding a quote, a backslash and a newline survives the
    // JSON escaping and parses back to itself.
    let record = grid_record_json(1, 1, "we\"ird\\ns\n:", 1, 2);
    let value: serde_json::Value = serde_json::from_str(&record).unwrap();
    assert_eq!(serde_json::to_string_pretty(&value).unwrap(), record);
    assert_eq!(value["grid_cell_args"][0], "we\"ird\\ns\n:2");
}

#[test]
fn tp_line_format() {
    assert_eq!(tp_line(100, 220, -5), "tp @a 100 220 -5 180 90");
    assert_eq!(tp_line(0, 0, 0), "tp @a 0 0 0 180 90");
    assert_eq!(tp_line(-131070, -32768, 131070), "tp @a -131070 -32768 131070 180 90");
}

#[test]
fn namespace_strips_dot_slash_prefix() {
    assert_eq!(create_df_namespace("namespace", "./frames"), "namespace:frames/");
    assert_eq!(create_df_namespace("ns", "./"), "ns:/");
}

#[test]
fn command_names_and_aliases() {
    assert_eq!(Command::Init.name(), "init");
    assert_eq!(Command::Run.name(), "run");
    assert_eq!(Command::Test.name(), "test");
    assert_eq!(Command::Help.name(), "help");
    assert_eq!(Command::Init.alias_short(), "-i");
    assert_eq!(Command::Help.alias_long(), "--help");
}

#[test]
fn command_from_name_accepts_all_spellings() {
    assert_eq!(Command::from_name("init"), Some(Command::Init));
    assert_eq!(Command::from_name("-r"), Some(Command::Run));
    assert_eq!(Command::from_name("--test"), Some(Command::Test));
    assert_eq!(Command::from_name("help"), Some(Command::Help));
    assert_eq!(Command::from_name("frobnicate"), None);
    assert_eq!(Command::from_name(""), None);
}

#[test]
fn default_config_values() {
    let config = Config::default();
    assert_eq!(config.video_file, "input.mp4");
    assert_eq!(config.output_root_dir, "./output");
    assert_eq!(config.projects.len(), 1);
    let p = &config.projects[0];
    assert_eq!(p.border_width, 32);
    assert_eq!(p.border_color, 255);
    assert_eq!(p.frame_start, Some(1));
    assert_eq!(p.frame_end, None);
    assert_eq!(p.namespace, "namespace");
    assert!(p.make_frames && p.make_grid && p.make_tp);
    assert_eq!(p.frame_dfs_dir, "./frames");
    assert_eq!(p.grid_df_dir, "./");
    assert_eq!(p.tp_dir, "./frame_tp");
    assert_eq!(p.tp_height, 220);
    assert_eq!(p.test_frame, Some(1));
}

#[test]
fn project_config_default_is_well_formed() {
    let p = ProjectConfig::default();
    assert_eq!(p.border_width, 32);
    assert_eq!(p.invert_colors, None);
}

#[test]
fn error_messages() {
    assert_eq!(
        CliError::InvalidFrameRange(2, 5, 1).message(),
        "v2df: Frame range [2, 5] is out of range of frame count: 1\n"
    );
    assert_eq!(
        CliError::InvalidTestFrame(3, 1).message(),
        "v2df: Test frame 3 is out of range of frame count: 1\n"
    );
    assert_eq!(
        CliError::UnknownCommand(String::from("zap")).message(),
        "v2df: Unknown command: 'zap'\n"
    );
    assert_eq!(CliError::NoCommand.message(), "v2df: Type --help for usage\n");
    assert_eq!(
        ImplError::FileCompression(String::from("oops")).message(),
        "v2df: Somnehow failed during zlib compression: oops\n"
    );
    assert_eq!(
        ImplError::AccessProjectConfig.message(),
        "v2df: Somehow failed to acess the project config from config\n"
    );
}
