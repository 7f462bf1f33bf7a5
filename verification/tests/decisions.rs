use xpress_core::budget::{budget_route, rate_placement, BudgetRoute, Ladder};
use xpress_core::cli::{compression_for, convert_route, options_for, output_mode, parse_kind, resolve_output, CommonFlags, ConvertRoute};
use xpress_core::guard::{failing_count, verdict, Verdict};
use xpress_core::audio::AudioFormat;
use xpress_core::image::ImageFormat;
use xpress_core::result::{OptimisationResult, Placement};
use xpress_core::compression::CompressionQuality;
use xpress_core::config::{Config, Platform};
use xpress_core::crop::{image_crop_command, CropCommand, Plan};
use xpress_core::filetype::{kind_allowed, MediaKind};
use xpress_core::render::OutputMode;
use xpress_core::result::{cacheable, cached_result, OptimiseOptions};
use xpress_core::tools::{bin_dirs, bundle_dir, retry_action, DataEnv, RetryAction, RunOutcome, Tool};
use xpress_core::video::{
    bitrate_filters, bitrate_pass1_args, bitrate_pass2_args, BitratePlan, convert_args, gif_filter, gif_frames_args, gif_placement, gif_single_pass_args, gifski_args, h264_attempts, optimise_args,
    video_placement, VideoCodec, HDR_TO_SDR,
};

fn flags() -> CommonFlags {
    CommonFlags {
        compression: None,
        aggressive: false,
        strip_metadata: false,
        no_preserve_dates: false,
        no_backup: false,
        allow_larger: false,
        json: false,
        quiet: false,
    }
}

#[test]
fn flags_override_the_config() {
    let mut cfg = Config::default();
    cfg.compression = 40;
    let mut f = flags();
    assert_eq!(compression_for(&f, &cfg).factor, 40);
    f.compression = Some(70);
    assert_eq!(compression_for(&f, &cfg).factor, 70);
    f.aggressive = true;
    assert_eq!(compression_for(&f, &cfg), CompressionQuality::aggressive());
    f.no_backup = true;
    f.quiet = true;
    let o = options_for(&f, &cfg);
    assert!(!o.backup && o.preserve_dates && o.use_cache && o.output.is_none());
    assert_eq!(output_mode(&f), OutputMode::Quiet);
    f.json = true;
    assert_eq!(output_mode(&f), OutputMode::Json);
}

#[test]
fn kinds_by_name() {
    assert_eq!(parse_kind("Images"), Ok(MediaKind::Image));
    assert_eq!(parse_kind("PDF"), Ok(MediaKind::Pdf));
    assert_eq!(parse_kind("Movies"), Err("unknown kind 'movies'".to_string()));
    assert!(kind_allowed(&[], MediaKind::Audio));
    assert!(kind_allowed(&[MediaKind::Video, MediaKind::Audio], MediaKind::Audio));
    assert!(!kind_allowed(&[MediaKind::Video], MediaKind::Audio));
}

#[test]
fn outputs_per_file() {
    let mut c = 3;
    assert_eq!(resolve_output(None, "a.png", &mut c, true, false, None), None);
    assert_eq!(
        resolve_output(Some("out/%f-%i.%e"), "x/a.png", &mut c, false, false, None),
        Some("out/a-3.png".to_string())
    );
    assert_eq!(c, 4);
    assert_eq!(
        resolve_output(Some("/dst"), "x/a.png", &mut c, false, true, None),
        Some("/dst/a.png".to_string())
    );
    assert_eq!(resolve_output(Some("b.png"), "a.png", &mut c, true, false, None), Some("b.png".to_string()));
    assert_eq!(resolve_output(Some("b.png"), "a.png", &mut c, false, false, None), None);
}

#[test]
fn budget_ladder_stops_at_the_first_fit() {
    let mut l = Ladder::new();
    assert_eq!(l.factor(), Some(30));
    assert!(l.record(900, 900, 500));
    assert_eq!(l.factor(), Some(50));
    assert!(l.record(950, 950, 500), "bigger candidates do not replace the best");
    assert_eq!(l.best, Some((0, 900)));
    assert!(!l.record(400, 400, 500));
    assert_eq!(l.best, Some((2, 400)));
    let mut m = Ladder::new();
    let mut tries = 0;
    while let Some(_) = m.factor() {
        tries += 1;
        if !m.record(1000, 1000, 1) {
            break;
        }
    }
    assert_eq!(tries, 6);
    assert_eq!(m.best, Some((0, 1000)));
}

#[test]
fn tool_locations_and_retries() {
    let env = DataEnv { platform: Platform::Other, home: Some("/home/u"), local_appdata: None, xdg_data_home: None };
    let b = bundle_dir(&env).unwrap();
    assert_eq!(b, "/home/u/.local/share/xpress/bin");
    assert_eq!(
        bin_dirs(Some("/o"), None, Some("/usr/local/bin/xpress"), Some(&b)),
        vec!["/o", "/usr/local/bin/bin", "/home/u/.local/share/xpress/bin"]
    );
    assert_eq!(retry_action(1, 2, RunOutcome::Failed), RetryAction::Again);
    assert_eq!(retry_action(2, 2, RunOutcome::Failed), RetryAction::Fail);
    assert_eq!(retry_action(1, 0, RunOutcome::Failed), RetryAction::Fail);
    assert_eq!(retry_action(1, 5, RunOutcome::TimedOut), RetryAction::Fail);
    assert_eq!(retry_action(1, 5, RunOutcome::Succeeded), RetryAction::Done);
}

#[test]
fn video_command_lines() {
    let o = OptimiseOptions::default();
    let a = optimise_args("in.mov", Some("scale=2:2"), CompressionQuality::normal(), false, false, &o, "out.mp4");
    assert_eq!(&a[..5], &["-y", "-i", "in.mov", "-vf", "scale=2:2"]);
    assert!(a.windows(2).any(|w| w == ["-c:a", "copy"]));
    assert_eq!(&a[a.len() - 5..], &["-movflags", "+faststart", "-hide_banner", "-nostats", "out.mp4"]);
    let c = convert_args("in.mov", None, VideoCodec::Vp9, CompressionQuality::normal(), false, true, &o, "out.webm");
    assert!(c.windows(2).any(|w| w == ["-c:a", "libopus"]));
    assert!(!c.iter().any(|s| s == "+faststart"));
    let att = h264_attempts(Some("crop=2:2"), true);
    assert_eq!(att.len(), 4);
    assert_eq!(att[0], (Some(format!("crop=2:2,{HDR_TO_SDR}")), false));
    assert_eq!(att[3], (Some("crop=2:2".to_string()), true));
    assert_eq!(h264_attempts(None, false), vec![(None, false), (None, true)]);
    assert_eq!(gif_filter(0, Some(480)), "fps=1,scale=480:-1:flags=lanczos");
    assert_eq!(
        gifski_args("o.gif", 15, CompressionQuality::aggressive(), None),
        vec!["-o", "o.gif", "--fps", "15", "--quality", "60"]
    );
}

#[test]
fn image_crop_commands() {
    assert_eq!(
        image_crop_command(Plan::Resize(10, 20), 100, 200, false, true, true, "a.png", "b.png"),
        CropCommand::Run {
            tool: Tool::Vipsthumbnail,
            args: vec!["-s".into(), "10x20".into(), "-o".into(), "b.png".into(), "a.png".into()],
            tries: 2
        }
    );
    assert_eq!(
        image_crop_command(Plan::Resize(10, 20), 100, 200, false, false, true, "a", "b"),
        CropCommand::VipsResize { width: 10, height: 20 }
    );
    assert_eq!(
        image_crop_command(Plan::CropOnly(60, 200), 100, 200, true, true, true, "a", "b"),
        CropCommand::Run {
            tool: Tool::Vips,
            args: ["crop", "a", "b", "20", "0", "60", "200"].iter().map(|s| s.to_string()).collect(),
            tries: 2
        }
    );
    assert_eq!(
        image_crop_command(Plan::CropOnly(60, 200), 100, 200, false, false, false, "a", "b"),
        CropCommand::Ffmpeg { filter: "crop=60:200:(iw-60)/2:(ih-200)/2".to_string() }
    );
    match image_crop_command(Plan::Cover(5, 5), 9, 9, true, true, false, "a", "b") {
        CropCommand::Run { args, .. } => assert_eq!(args[2..4], ["--smartcrop".to_string(), "attention".to_string()]),
        other => panic!("unexpected {other:?}"),
    }
}

#[test]
fn cache_skips_only_plain_runs() {
    let mut o = OptimiseOptions::default();
    assert!(cacheable(&o, true));
    assert!(!cacheable(&o, false));
    o.use_cache = false;
    assert!(!cacheable(&o, true));
    let r = cached_result(MediaKind::Image, "a.png", 7, &o);
    assert!(r.cached && r.old_size == 7 && r.new_size == 7 && r.output == "a.png");
}

#[test]
fn budgets_route_by_size_and_kind() {
    assert_eq!(budget_route(MediaKind::Video, 100, 100), BudgetRoute::PlainOptimise);
    assert_eq!(budget_route(MediaKind::Video, 101, 100), BudgetRoute::ByBitrate);
    assert_eq!(budget_route(MediaKind::Audio, 101, 100), BudgetRoute::ByBitrate);
    assert_eq!(budget_route(MediaKind::Image, 101, 100), BudgetRoute::Ladder);
    assert_eq!(budget_route(MediaKind::Pdf, 5, 100), BudgetRoute::PlainOptimise);
}

#[test]
fn conversion_targets_route_by_name() {
    assert_eq!(convert_route("GIF", false), ConvertRoute::Gif);
    assert_eq!(convert_route("hevc", true), ConvertRoute::Video(VideoCodec::Hevc));
    assert_eq!(convert_route("webp", true), ConvertRoute::Image(ImageFormat::Webp));
    assert_eq!(convert_route("mp3", false), ConvertRoute::Audio(AudioFormat::Mp3));
    assert_eq!(convert_route("nope", true), ConvertRoute::Unknown);
}

fn result(old: u64, new: u64) -> OptimisationResult {
    OptimisationResult {
        kind: MediaKind::Image,
        source: "a.png".to_string(),
        output: "a.png".to_string(),
        backup: None,
        old_size: old,
        new_size: new,
        aggressive: false,
        cached: false,
    }
}

#[test]
fn guard_verdicts_and_failures() {
    assert_eq!(verdict(&result(500_000, 100_000), Some(400_000)), Verdict { size: 500_000, optimised: 100_000, over_limit: true });
    assert_eq!(verdict(&result(90_000, 95_000), Some(100_000)), Verdict { size: 90_000, optimised: 90_000, over_limit: false });
    assert_eq!(verdict(&result(90_000, 0), None), Verdict { size: 90_000, optimised: 90_000, over_limit: false });
    assert_eq!(failing_count(&[true, false, true], 2), 4);
    assert_eq!(failing_count(&[], 0), 0);
}

#[test]
fn gif_and_video_destinations() {
    assert_eq!(
        gif_frames_args("in.mov", 15, Some(480), "/t/f%05d.png"),
        vec!["-y", "-i", "in.mov", "-vf", "fps=15,scale=480:-1:flags=lanczos", "/t/f%05d.png"]
    );
    assert_eq!(
        gif_single_pass_args("in.mov", 0, None, "out.gif"),
        vec!["-y", "-i", "in.mov", "-vf", "fps=1", "-hide_banner", "-nostats", "out.gif"]
    );
    assert_eq!(gif_placement("/v/clip.mov"), ("/v/clip.gif".to_string(), Placement { size_guard: false, backup: false, replace_source: false }));
    assert_eq!(video_placement("/v/clip.mov", false), ("/v/clip.mp4".to_string(), Placement { size_guard: true, backup: true, replace_source: true }));
    assert_eq!(video_placement("/v/clip.mov", true).1, Placement { size_guard: false, backup: true, replace_source: true });
}

#[test]
fn two_pass_command_lines() {
    let p1 = bitrate_pass1_args("in.mov", Some("scale=640:360:flags=lanczos,setsar=1"), 1200, "/t/x264", "/t/pass1.mp4");
    assert_eq!(
        p1,
        vec![
            "-y", "-i", "in.mov", "-vf", "scale=640:360:flags=lanczos,setsar=1", "-c:v", "libx264", "-preset", "medium",
            "-b:v", "1200k", "-pix_fmt", "yuv420p", "-pass", "1", "-passlogfile", "/t/x264", "-hide_banner", "-nostats",
            "-an", "-f", "mp4", "/t/pass1.mp4",
        ]
    );
    let plan = BitratePlan { video_kbps: 800, audio_kbps: Some(64), scale: None };
    let mut o = OptimiseOptions::default();
    o.strip_metadata = true;
    let p2 = bitrate_pass2_args("in.mov", None, &plan, "/t/x264", &o, "out.mp4");
    assert_eq!(
        p2,
        vec![
            "-y", "-i", "in.mov", "-c:v", "libx264", "-preset", "medium", "-b:v", "800k", "-pix_fmt", "yuv420p", "-pass", "2",
            "-passlogfile", "/t/x264", "-hide_banner", "-nostats", "-c:a", "aac", "-b:a", "64k", "-map_metadata", "-1",
            "-movflags", "+faststart", "out.mp4",
        ]
    );
    let silent = BitratePlan { video_kbps: 20, audio_kbps: None, scale: None };
    let p2 = bitrate_pass2_args("a.mp4", None, &silent, "log", &OptimiseOptions::default(), "b.mp4");
    assert_eq!(&p2[16..], &["-nostats", "-an", "-movflags", "+faststart", "b.mp4"]);
}

#[test]
fn two_pass_filters_tone_map_hdr_first() {
    assert_eq!(bitrate_filters(None, false), vec![None]);
    assert_eq!(bitrate_filters(Some("scale=2:2"), false), vec![Some("scale=2:2".to_string())]);
    assert_eq!(bitrate_filters(None, true), vec![Some(HDR_TO_SDR.to_string()), None]);
    assert_eq!(
        bitrate_filters(Some("scale=2:2"), true),
        vec![Some(format!("scale=2:2,{HDR_TO_SDR}")), Some("scale=2:2".to_string())]
    );
}

#[test]
fn bitrate_results_placement() {
    let (dest, p) = rate_placement("clip.mov", MediaKind::Video);
    assert_eq!(dest, "clip.mp4");
    assert_eq!(p, Placement { size_guard: false, backup: true, replace_source: true });
    let (dest, p) = rate_placement("song.mp3", MediaKind::Audio);
    assert_eq!(dest, "song.mp3");
    assert_eq!(p, Placement { size_guard: false, backup: true, replace_source: false });
}
