use hfm_filter::model::{attempt_step, AttemptStep};
use hfm_filter::browser::{binary_source, fallback_base, BinarySource};
use hfm_filter::shared_state::FrameSlot;
use hfm_filter::browser::{
    after_failed_removal, browser_flags, headless_shell_binary, install_hint, is_headless_shell_dir,
    is_stale_profile_dir, split_path_list, HostOs, RemovalRetry, PROFILE_REMOVAL_ATTEMPTS,
};
use hfm_filter::content_buffer::{ContentBuffer, Status};
use hfm_filter::debug_config::{env_bool, env_parse_u32, parse_log_level, DebugConfig, EnvValues, LogLevel};
use hfm_filter::fetcher::fetch_stage;
use hfm_filter::logging::{increment_frame_counter, should_log};
use hfm_filter::ml_processor::process_stage;
use hfm_filter::network::{
    conn_step, decode_length_prefix, frame_pixel_bytes, should_report_frame, skip_after_frame, ConnAction,
    ConnEvent, ConnPhase, ACK_BYTE,
};
use hfm_filter::packaging::{
    archive_format, build_features, cargo_build_args, crate_name_arg, get_config, gstreamer_plan, os_named,
    parse_task, rpath_tool, ArchiveFormat, GstreamerPlan, PackError, RpathTool, Task,
};
use hfm_filter::parser::{lay_out_rows, one_hot, tag_index};
use hfm_filter::render::{
    capture_step, composite_sizes, mask_action_codes, mask_instance_count, needs_new_texture,
    padded_bytes_per_row, redraw_end, should_run_inference, starts_capture, strip_row_padding, surface_step,
    use_cached_actions, CaptureStep, CustomAppEvent, RedrawEnd, SurfaceStatus, SurfaceStep, MAX_ACTIONS,
};
use hfm_filter::text::{eq_ignore_ascii_case, split_ascii, starts_with, str_eq};
use hfm_filter::tokenizer::{build_inference_text, pad_token_ids, tokenize};

const WORD_LEVEL: &str = r#"{"version":"1.0","truncation":null,"padding":null,"added_tokens":[],"normalizer":null,"pre_tokenizer":{"type":"Whitespace"},"post_processor":null,"decoder":null,"model":{"type":"WordLevel","vocab":{"[UNK]":0,"hello":1,"world":2},"unk_token":"[UNK]"}}"#;

#[test]
fn tokenize_pads_and_masks() {
    let tokenizer: tokenizers::Tokenizer = WORD_LEVEL.parse().unwrap();
    let (ids, mask) = tokenize(&tokenizer, "hello world zebra", 5).unwrap();
    assert_eq!(ids, vec![1, 2, 0, 0, 0]);
    assert_eq!(mask, vec![1, 1, 1, 0, 0]);
    let (ids, mask) = tokenize(&tokenizer, "world hello world", 2).unwrap();
    assert_eq!(ids, vec![2, 1]);
    assert_eq!(mask, vec![1, 1]);
}

fn bert_like(max_length: usize, stride: usize) -> tokenizers::Tokenizer {
    let json = format!(
        r#"{{"version":"1.0","truncation":{{"direction":"Right","max_length":{},"strategy":"LongestFirst","stride":{}}},"padding":null,"added_tokens":[],"normalizer":null,"pre_tokenizer":{{"type":"Whitespace"}},"post_processor":{{"type":"BertProcessing","sep":["[SEP]",4],"cls":["[CLS]",3]}},"decoder":null,"model":{{"type":"WordLevel","vocab":{{"[UNK]":0,"hello":1,"world":2,"[CLS]":3,"[SEP]":4}},"unk_token":"[UNK]"}}}}"#,
        max_length, stride
    );
    json.parse().unwrap()
}

#[test]
fn tokenize_with_truncation_and_special_tokens() {
    let tokenizer = bert_like(4, 0);
    let (ids, mask) = tokenize(&tokenizer, "hello world hello", 6).unwrap();
    assert_eq!(ids, vec![3, 1, 2, 4, 0, 0]);
    assert_eq!(mask, vec![1, 1, 1, 1, 0, 0]);
}

#[test]
fn tokenize_refuses_settings_that_would_panic() {
    // Two special tokens do not fit a truncation length of 1.
    assert_eq!(tokenize(&bert_like(1, 0), "hello", 4), None);
    // A stride as long as the room left for the text.
    assert_eq!(tokenize(&bert_like(4, 2), "hello world hello", 4), None);
}

#[test]
fn token_padding() {
    assert_eq!(pad_token_ids(&[5, 6], 4), (vec![5, 6, 0, 0], vec![1, 1, 0, 0]));
    assert_eq!(pad_token_ids(&[5, 6, 7], 2), (vec![5, 6], vec![1, 1]));
    assert_eq!(pad_token_ids(&[], 0), (vec![], vec![]));
}

#[test]
fn inference_text() {
    let texts = vec![Some("Buy".to_string()), None, Some(String::new()), Some("now".to_string())];
    assert_eq!(build_inference_text(&texts), "Buy now ");
    assert_eq!(build_inference_text(&vec![None, Some(String::new())]), "empty");
}

#[test]
fn text_helpers() {
    assert!(str_eq("abc", "abc"));
    assert!(!str_eq("abc", "abd"));
    assert!(starts_with("chrome-headless-shell-linux64", "chrome-headless-shell"));
    assert!(!starts_with("chrome", "chrome-headless"));
    assert!(eq_ignore_ascii_case("TrUe", "true"));
    assert!(!eq_ignore_ascii_case("truth", "true"));
    assert_eq!(split_ascii("a::b:", b':'), vec!["a", "", "b", ""]);
}

#[test]
fn debug_flags_and_levels() {
    assert!(env_bool(Some("1"), false));
    assert!(env_bool(Some("TRUE"), false));
    assert!(!env_bool(Some("yes"), true));
    assert!(env_bool(None, true));
    assert_eq!(env_parse_u32(Some("12"), 1), 12);
    assert_eq!(env_parse_u32(Some("x"), 1), 1);
    assert_eq!(env_parse_u32(None, 3), 3);
    assert_eq!(env_parse_u32(Some("+7"), 1), 7);
    assert_eq!(env_parse_u32(Some("+"), 1), 1);
    assert_eq!(env_parse_u32(Some(""), 2), 2);
    assert_eq!(env_parse_u32(Some("4294967295"), 1), 4294967295);
    assert_eq!(env_parse_u32(Some("4294967296"), 1), 1);
    assert_eq!(env_parse_u32(Some("00012"), 1), 12);
    assert_eq!(env_parse_u32(Some(" 3"), 1), 1);
    assert_eq!(env_parse_u32(Some("-0"), 1), 1);
    assert_eq!(parse_log_level(Some("WARN")), LogLevel::Warn);
    assert_eq!(parse_log_level(Some("Trace")), LogLevel::Trace);
    assert_eq!(parse_log_level(Some("loud")), LogLevel::Info);
    assert_eq!(parse_log_level(None), LogLevel::Info);
}

#[test]
fn debug_config_from_values() {
    let vars = EnvValues {
        renderdoc_capture: Some("true"),
        renderdoc_max_frames: Some("0"),
        dump_frames_headless: None,
        inference_profiling: Some("1"),
        gpu_validation: Some("0"),
        log_level: Some("ERROR"),
    };
    let config = DebugConfig::from_env_values(&vars);
    assert!(config.renderdoc_capture);
    assert_eq!(config.renderdoc_max_frames, 1);
    assert!(!config.dump_frames_headless);
    assert!(config.inference_profiling);
    assert!(!config.gpu_validation);
    assert_eq!(config.log_level, LogLevel::Error);
    let slot = Some(config);
    assert_eq!(DebugConfig::get(&slot).renderdoc_max_frames, 1);
}

#[test]
fn frame_counter() {
    assert_eq!(increment_frame_counter(0), 1);
    assert_eq!(increment_frame_counter(u32::MAX), 0);
    assert!(should_log(120, 60));
    assert!(!should_log(61, 60));
    assert!(should_log(0, 7));
}

#[test]
fn content_stages() {
    let buf = ContentBuffer::new_dummy();
    assert_eq!(buf.input_id, "dummy");
    assert_eq!(buf.payload.len(), 1024);
    assert_eq!(Status::FAIL.as_str(), "FAIL");
    let failed = fetch_stage(ContentBuffer::from_bytes(vec![]));
    assert_eq!(failed.status, Status::FAIL);
    assert_eq!(failed.input_id, "large");
    let passed = process_stage(fetch_stage(ContentBuffer::from_bytes(vec![1, 2, 3])));
    assert_eq!(passed.status, Status::SUCCESS);
    assert_eq!(passed.payload, vec![3, 2, 1]);
    let untouched = process_stage(failed);
    assert_eq!(untouched.payload, Vec::<u8>::new());
}

#[test]
fn packaging_tasks_and_config() {
    assert_eq!(parse_task(None), Some(Task::Dist));
    assert_eq!(parse_task(Some("check-urls")), Some(Task::CheckUrls));
    assert_eq!(parse_task(Some("deploy")), None);
    assert_eq!(crate_name_arg(None), "hfm-player");
    assert_eq!(crate_name_arg(Some("hfm-cli")), "hfm-cli");
    assert_eq!(os_named("macos"), Some(HostOs::MacOs));
    assert_eq!(os_named("freebsd"), None);
    let config = get_config("hfm-player").unwrap();
    assert_eq!(config.core_renamed, "hfm-player-core");
    assert_eq!(config.launcher_bin, "launcher");
    assert!(config.needs_gstreamer && config.needs_openvino && config.needs_models);
    assert_eq!(get_config("hfm-cli").unwrap_err(), PackError::UnknownCrate("hfm-cli".to_string()));
    assert_eq!(config.dist_dir(), vec!["dist", "hfm-player"]);
    assert_eq!(config.lib_dir(), vec!["dist", "hfm-player", "lib"]);
    assert_eq!(config.archive_name(HostOs::Windows), "hfm-player-windows-x64.zip");
    assert_eq!(config.archive_name(HostOs::Linux), "hfm-player-linux-x86_64.tar.gz");
    assert_eq!(config.archive_name(HostOs::MacOs), "hfm-player-macos-universal.tar.gz");
    assert_eq!(config.core_dest_name(HostOs::Windows), "hfm-player-core.exe");
    assert_eq!(config.launcher_dest_name(HostOs::Linux), "hfm-player");
}

#[test]
fn packaging_per_system_choices() {
    assert_eq!(archive_format(HostOs::Windows), ArchiveFormat::Zip);
    assert_eq!(archive_format(HostOs::MacOs), ArchiveFormat::TarGz);
    assert_eq!(gstreamer_plan(HostOs::Linux), GstreamerPlan::SystemInstall);
    assert_eq!(gstreamer_plan(HostOs::Windows), GstreamerPlan::Bundle);
    assert_eq!(rpath_tool(HostOs::Linux), RpathTool::Patchelf);
    assert_eq!(rpath_tool(HostOs::MacOs), RpathTool::InstallNameTool);
    assert_eq!(rpath_tool(HostOs::Windows), RpathTool::NoTool);
    let features = build_features();
    assert_eq!(
        cargo_build_args("hfm-player", "launcher", &features),
        vec![
            "build", "--package", "hfm-player", "--bin", "launcher", "--profile", "final-release", "--features",
            "only-gui-no-console", "--features", "no-default-video",
        ]
    );
}

#[test]
fn frame_protocol() {
    assert_eq!(decode_length_prefix([0x10, 0x02, 0, 0]), 0x0210);
    assert_eq!(decode_length_prefix([0xff, 0xff, 0xff, 0xff]), u32::MAX);
    assert_eq!(frame_pixel_bytes(1280, 720), 1280 * 720 * 4);
    assert!(should_report_frame(0));
    assert!(should_report_frame(300));
    assert!(!should_report_frame(301));
    assert!(skip_after_frame(true, false));
    assert!(!skip_after_frame(false, false));
    assert!(skip_after_frame(false, true));
    assert_eq!(ACK_BYTE, 0x01);
}

#[test]
fn connection_steps() {
    let (p, a) = conn_step(ConnPhase::AwaitLength, ConnEvent::LengthRead([8, 0, 0, 0]));
    assert_eq!((p, a), (ConnPhase::AwaitMetadata { len: 8 }, ConnAction::ReadExact(8)));
    let (p, a) = conn_step(p, ConnEvent::MetadataRead { width: 2, height: 3 });
    assert_eq!((p, a), (ConnPhase::AwaitPixels { len: 24 }, ConnAction::ReadExact(24)));
    let (p, a) = conn_step(p, ConnEvent::PixelsRead);
    assert_eq!((p, a), (ConnPhase::AwaitAck, ConnAction::PublishAndWait));
    let (p, a) = conn_step(p, ConnEvent::AckReady);
    assert_eq!((p, a), (ConnPhase::SendAck, ConnAction::Write(0x01)));
    let (p, a) = conn_step(p, ConnEvent::AckWritten);
    assert_eq!((p, a), (ConnPhase::AwaitLength, ConnAction::ReadExact(4)));
    assert_eq!(conn_step(p, ConnEvent::Failed), (ConnPhase::Closed, ConnAction::Close));
    assert_eq!(conn_step(ConnPhase::AwaitAck, ConnEvent::PixelsRead), (ConnPhase::Closed, ConnAction::Close));
}

#[test]
fn dom_tensor_layout() {
    assert_eq!(tag_index("div"), Some(0));
    assert_eq!(tag_index("h3"), Some(12));
    assert_eq!(tag_index("footer"), Some(20));
    assert_eq!(tag_index("table"), None);
    assert_eq!(one_hot(Some(2), 4, 1u8, 0u8), vec![0, 0, 1, 0]);
    assert_eq!(one_hot(None, 3, 1u8, 0u8), vec![0, 0, 0]);
    let rows = vec![vec![1, 2, 3], vec![4]];
    assert_eq!(lay_out_rows(&rows, 3, 2, 0), vec![1, 2, 4, 0, 0, 0]);
    assert_eq!(lay_out_rows(&rows, 1, 4, 9), vec![1, 2, 3, 9]);
    assert_eq!(lay_out_rows(&Vec::<Vec<u8>>::new(), 2, 2, 0), vec![0, 0, 0, 0]);
}

#[test]
fn render_decisions() {
    assert_eq!(surface_step(SurfaceStatus::Suboptimal, (1, 1)), SurfaceStep::Render);
    assert_eq!(surface_step(SurfaceStatus::Outdated, (800, 600)), SurfaceStep::ReconfigureAndRedraw);
    assert_eq!(surface_step(SurfaceStatus::Outdated, (0, 600)), SurfaceStep::Redraw);
    assert_eq!(surface_step(SurfaceStatus::Occluded, (1, 1)), SurfaceStep::Skip);
    assert_eq!(surface_step(SurfaceStatus::Validation, (1, 1)), SurfaceStep::ReportValidation);
    assert!(should_run_inference(false, 1));
    assert!(!should_run_inference(true, 1));
    assert!(!should_run_inference(false, 0));
    assert!(needs_new_texture(None, 1, 1));
    assert!(needs_new_texture(Some((2, 1)), 1, 1));
    assert!(!needs_new_texture(Some((1, 1)), 1, 1));
    assert_eq!(composite_sizes((0, 0), (0, 5)), ((800, 600), (1280, 5)));
    let codes = mask_action_codes(&vec![0, 1, 2]);
    assert_eq!(codes.len(), MAX_ACTIONS);
    assert_eq!(&codes[..4], &[1, 2, 2, 0]);
    assert_eq!(mask_instance_count(1000), 256);
    assert_eq!(mask_instance_count(3), 3);
    assert!(use_cached_actions(0));
    assert!(!use_cached_actions(1));
    assert_eq!(padded_bytes_per_row(1), 256);
    assert_eq!(padded_bytes_per_row(64), 256);
    assert_eq!(padded_bytes_per_row(65), 512);
    let data = vec![1, 2, 0, 0, 3, 4, 0, 0];
    assert_eq!(strip_row_padding(&data, 0, 2, 4), Vec::<u8>::new());
    let rgba_rows: Vec<u8> = (0u8..16).collect();
    assert_eq!(strip_row_padding(&rgba_rows, 1, 2, 8), vec![0, 1, 2, 3, 8, 9, 10, 11]);
    assert_eq!(capture_step(true, true, false, false), CaptureStep::Start);
    assert_eq!(capture_step(true, true, false, true), CaptureStep::Idle);
    assert_eq!(capture_step(false, true, false, false), CaptureStep::Idle);
    assert_eq!(CustomAppEvent::RequestShutdown, CustomAppEvent::RequestShutdown);
}

#[test]
fn redraw_endings() {
    assert_eq!(redraw_end(false, 3, true, true), RedrawEnd::NothingToDraw);
    assert_eq!(redraw_end(true, 3, true, true), RedrawEnd::DumpAndExit);
    assert_eq!(redraw_end(true, 0, true, true), RedrawEnd::Present { ack: true });
    assert_eq!(redraw_end(true, 2, false, false), RedrawEnd::Present { ack: false });
    assert!(starts_capture(true, 1));
    assert!(!starts_capture(true, 0));
    assert!(!starts_capture(false, 1));
}

#[test]
fn browser_decisions() {
    assert_eq!(headless_shell_binary(HostOs::Windows), "chrome-headless-shell.exe");
    assert_eq!(headless_shell_binary(HostOs::Linux), "chrome-headless-shell");
    assert_eq!(split_path_list("C:\\a;;D:\\b", HostOs::Windows), vec!["C:\\a", "", "D:\\b"]);
    assert_eq!(split_path_list("/usr/bin:/bin", HostOs::Linux), vec!["/usr/bin", "/bin"]);
    assert!(is_headless_shell_dir("chrome-headless-shell-win64"));
    assert!(!is_headless_shell_dir("chrome"));
    assert!(is_stale_profile_dir("chrome_profile_1234"));
    assert!(!is_stale_profile_dir("profile"));
    assert_eq!(install_hint(HostOs::Linux), "~/.local/share/chrome-headless-shell-linux64/");
    let flags = browser_flags("/tmp/dumps");
    assert_eq!(flags.len(), 12);
    assert_eq!(flags[0], "--headless=new");
    assert_eq!(flags[11], "--crash-dumps-dir=/tmp/dumps");
    assert_eq!(PROFILE_REMOVAL_ATTEMPTS, 3);
    assert_eq!(after_failed_removal(3), RemovalRetry::RetryAfter { retries_left: 2, delay_ms: 100 });
    assert_eq!(after_failed_removal(1), RemovalRetry::GiveUp);
}

#[test]
fn backend_attempts_use_first_success() {
    assert_eq!(attempt_step(3, 0, false), AttemptStep::Try(1));
    assert_eq!(attempt_step(3, 1, true), AttemptStep::Use(1));
    assert_eq!(attempt_step(3, 2, false), AttemptStep::GiveUp);
    // Walking a plan: attempts 0 and 1 fail, 2 succeeds.
    let created = [false, false, true];
    let mut step = AttemptStep::Try(0);
    while let AttemptStep::Try(i) = step {
        step = attempt_step(created.len(), i, created[i]);
    }
    assert_eq!(step, AttemptStep::Use(2));
}

#[test]
fn browser_binary_lookup_order() {
    assert_eq!(binary_source(true, &vec![true]), BinarySource::Override);
    assert_eq!(binary_source(false, &vec![false, true, true]), BinarySource::PathEntry(1));
    assert_eq!(binary_source(false, &vec![false, false]), BinarySource::Fallback);
    assert_eq!(fallback_base(HostOs::Windows), ("LOCALAPPDATA", vec!["Programs"]));
    assert_eq!(fallback_base(HostOs::MacOs), ("HOME", vec!["Applications"]));
    assert_eq!(fallback_base(HostOs::Linux), ("HOME", vec![".local", "share"]));
}

#[test]
fn frame_slot_hands_each_frame_out_once() {
    let mut slot: FrameSlot<(u64, Vec<u8>)> = FrameSlot::new();
    assert_eq!(slot.get_frame_if_dirty(), None);
    slot.update_frame((1, vec![1, 2]));
    slot.update_frame((2, vec![3]));
    assert_eq!(slot.get_frame_if_dirty(), Some((2, vec![3])));
    assert_eq!(slot.get_frame_if_dirty(), None);
}
