use xpress_core::audio::{audio_bitrate, audio_plan, AudioFormat};
use xpress_core::result::Placement;
use xpress_core::compression::CompressionQuality;
use xpress_core::effects::Position;
use xpress_core::filetype::{classify, extension_lower, MediaKind};
use xpress_core::render::{kind_str, OutputMode};
use xpress_core::tools::{exif_copy_args, Tool};
use xpress_core::video::{cap_fps_args, remove_audio_args, VideoCodec};

#[test]
fn classification_by_extension() {
    assert_eq!(classify("a/b/Photo.JPG"), Some(MediaKind::Image));
    assert_eq!(classify("clip.mov"), Some(MediaKind::Video));
    assert_eq!(classify("song.flac"), Some(MediaKind::Audio));
    assert_eq!(classify("doc.pdf"), Some(MediaKind::Pdf));
    assert_eq!(classify("notes.txt"), None);
    assert_eq!(classify("README"), None);
    assert_eq!(extension_lower("x.PnG"), Some("png".to_string()));
    assert_eq!(kind_str(MediaKind::Audio), "audio");
    assert_ne!(OutputMode::Json, OutputMode::Quiet);
}

#[test]
fn audio_formats_and_bitrates() {
    assert_eq!(AudioFormat::from_target("M4A"), Some(AudioFormat::Aac));
    assert_eq!(AudioFormat::from_target("ogg"), Some(AudioFormat::Opus));
    assert_eq!(AudioFormat::from_target("wma"), None);
    assert_eq!(AudioFormat::SameAsInput.resolved("mp3"), AudioFormat::Mp3);
    assert_eq!(AudioFormat::Flac.file_extension(), "flac");
    assert!(AudioFormat::Wav.is_lossless());
    assert_eq!(audio_bitrate(CompressionQuality::factor(50), AudioFormat::Wav), None);
    let b = audio_bitrate(CompressionQuality::normal(), AudioFormat::Mp3).unwrap();
    let (lo, hi) = AudioFormat::Mp3.bitrate_range().unwrap();
    assert!(lo <= b && b <= hi);
    assert_eq!(
        AudioFormat::Flac.encoding_args(0, true, None),
        vec!["-c:a", "flac", "-compression_level", "12"]
    );
    assert_eq!(
        AudioFormat::Wav.encoding_args(0, false, Some(96_000)),
        vec!["-c:a", "pcm_s16le", "-ar", "48000"]
    );
}

#[test]
fn bitrate_tables() {
    assert_eq!(AudioFormat::Opus.allowed_bitrates(), &[32, 48, 64, 80, 96, 128]);
    assert_eq!(AudioFormat::Aac.allowed_bitrates().last(), Some(&256));
    assert!(AudioFormat::Flac.allowed_bitrates().is_empty());
    assert_eq!(AudioFormat::Aac.default_bitrate(), 192);
    assert_eq!(AudioFormat::Opus.bitrate_range(), Some((32, 160)));
    assert_eq!(AudioFormat::Wav.bitrate_range(), None);
}

#[test]
fn video_arguments() {
    assert_eq!(
        remove_audio_args("in.mov", "out.mov"),
        vec!["-y", "-i", "in.mov", "-c", "copy", "-an", "-hide_banner", "-nostats", "out.mov"]
    );
    let args = cap_fps_args("a.mp4", "b.mp4", 0, CompressionQuality::normal(), false);
    assert_eq!(&args[..5], &["-y", "-i", "a.mp4", "-vf", "fps=fps=1"]);
    assert_eq!(args.last().unwrap(), "b.mp4");
    assert_eq!(VideoCodec::from_target("WEBM"), Some(VideoCodec::Vp9));
    assert_eq!(VideoCodec::Vp9.container_ext(), "webm");
    assert_eq!(VideoCodec::Hevc.container_ext(), "mp4");
}

#[test]
fn watermark_and_tools() {
    assert_eq!(Position::parse("Top-Left"), Position::TopLeft);
    assert_eq!(Position::parse("centre"), Position::Center);
    assert_eq!(Position::parse("anywhere"), Position::BottomRight);
    assert_eq!(Position::Center.overlay_xy(), "(W-w)/2:(H-h)/2");
    assert_eq!(Tool::Ffmpeg.binary_name(), "ffmpeg");
    assert_eq!(
        exif_copy_args("a.jpg", "b.jpg", false, &["GPS:all"]),
        vec!["-overwrite_original", "-TagsFromFile", "a.jpg", "-all:all", "--GPS:all", "b.jpg"]
    );
}

#[test]
fn audio_plans() {
    let cq = CompressionQuality::normal();
    let p = audio_plan("mp3", AudioFormat::SameAsInput, cq, None);
    assert_eq!(p.format, AudioFormat::Mp3);
    assert_eq!(Some(p.bitrate), audio_bitrate(cq, AudioFormat::Mp3));
    assert_eq!(p.codec_args[1], "libmp3lame");
    assert_eq!(p.codec_args[2], "-q:a");
    assert!(p.fallback_args.is_none());
    assert_eq!(p.placement, Placement { size_guard: true, backup: true, replace_source: true });

    let p = audio_plan("mp3", AudioFormat::Mp3, cq, Some(96));
    assert_eq!(p.codec_args, vec!["-c:a", "libmp3lame", "-b:a", "96k"]);

    let p = audio_plan("wav", AudioFormat::Aac, cq, Some(128));
    assert_eq!(p.bitrate, 128);
    assert_eq!(p.codec_args, vec!["-c:a", "aac_at", "-b:a", "128k", "-aac_at_mode", "cvbr"]);
    assert_eq!(p.fallback_args, Some(vec!["-c:a".to_string(), "aac".to_string(), "-b:a".to_string(), "128k".to_string()]));
    assert_eq!(p.placement, Placement { size_guard: false, backup: false, replace_source: false });

    let p = audio_plan("flac", AudioFormat::SameAsInput, cq, None);
    assert_eq!(p.bitrate, 0);
    assert_eq!(p.codec_args, vec!["-c:a", "flac", "-compression_level", "8"]);
}
