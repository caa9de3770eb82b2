use png_sequence_gif::conversion::{
    build_config, command_arguments, finish_conversion, prepare_conversion, ConversionError,
    ConversionRequest, EncoderOutcome, FfmpegInfo,
};
use png_sequence_gif::encoder::{fallback_locations, first_line, locate_encoder, Platform};
use png_sequence_gif::progress::{progress_event, progress_frame};
use png_sequence_gif::sequence::SequenceInfo;

fn sequence() -> SequenceInfo {
    SequenceInfo {
        valid: true,
        pattern: "shot_%03d.png".to_string(),
        frame_count: 5,
        start_number: 1,
        prefix: "shot_".to_string(),
        directory: "/tmp/shots".to_string(),
        error: None,
    }
}

fn request(framerate: u32, width: u32, loop_forever: bool) -> ConversionRequest {
    ConversionRequest {
        sequence_info: sequence(),
        framerate,
        width,
        loop_forever,
        output_path: "/tmp/out.gif".to_string(),
    }
}

fn encoder() -> FfmpegInfo {
    FfmpegInfo {
        installed: true,
        version: Some("ffmpeg version 6.0".to_string()),
        path: Some("/usr/bin/ffmpeg".to_string()),
    }
}

#[test]
fn framerate_zero_is_refused() {
    let r = prepare_conversion(request(0, 320, true), &encoder());
    assert!(matches!(r, Err(ConversionError::InvalidFramerate)));
}

#[test]
fn framerate_above_limit_is_refused() {
    let r = prepare_conversion(request(121, 320, true), &encoder());
    let e = r.err().expect("refused");
    assert!(matches!(e, ConversionError::InvalidFramerate));
    assert_eq!(e.message(), "Framerate must be between 1 and 120");
}

#[test]
fn width_limits_are_enforced() {
    assert!(matches!(
        prepare_conversion(request(10, 0, true), &encoder()),
        Err(ConversionError::InvalidWidth)
    ));
    let e = prepare_conversion(request(10, 10001, true), &encoder()).err().expect("refused");
    assert_eq!(e.message(), "Width must be between 1 and 10000");
    assert!(prepare_conversion(request(120, 10000, true), &encoder()).is_ok());
    assert!(prepare_conversion(request(1, 1, true), &encoder()).is_ok());
}

#[test]
fn missing_encoder_is_checked_first() {
    let none = FfmpegInfo { installed: false, version: None, path: None };
    let e = prepare_conversion(request(0, 0, true), &none).err().expect("refused");
    assert!(matches!(e, ConversionError::EncoderMissing));
    assert_eq!(e.message(), "FFmpeg is not installed or not found in PATH");
}

#[test]
fn accepted_request_gives_full_invocation() {
    let (inv, config) = prepare_conversion(request(15, 480, true), &encoder()).ok().expect("accepted");
    assert_eq!(inv.program, "/usr/bin/ffmpeg");
    assert_eq!(inv.directory, "/tmp/shots");
    assert_eq!(config.total_frames, 5);
    assert_eq!(config.output_path, "/tmp/out.gif");
    assert_eq!(
        inv.arguments,
        vec![
            "-framerate",
            "15",
            "-start_number",
            "1",
            "-i",
            "shot_%03d.png",
            "-vf",
            "scale=480:-1:flags=lanczos,split[s0][s1];[s0]palettegen=reserve_transparent=1[p];[s1][p]paletteuse=alpha_threshold=128",
            "-gifflags",
            "-offsetting",
            "-loop",
            "0",
            "-y",
            "/tmp/out.gif",
        ]
    );
}

#[test]
fn no_loop_uses_minus_one() {
    let config = build_config(request(24, 100, false));
    let args = command_arguments(&config);
    assert_eq!(args[10], "-loop");
    assert_eq!(args[11], "-1");
    assert_eq!(args[1], "24");
}

#[test]
fn failed_exit_removes_output() {
    let output = "/tmp/out.gif".to_string();
    let mut on_disk = vec![output.clone(), "/tmp/other.gif".to_string()];
    let done = finish_conversion(EncoderOutcome::Exited(false));
    if done.remove_output {
        on_disk.retain(|p| *p != output);
    }
    assert!(!on_disk.contains(&output));
    assert_eq!(on_disk.len(), 1);
    let e = done.result.err().expect("failed");
    assert_eq!(e.message(), "FFmpeg conversion failed");
}

#[test]
fn successful_exit_keeps_output() {
    let done = finish_conversion(EncoderOutcome::Exited(true));
    assert!(!done.remove_output);
    assert!(done.result.is_ok());
}

#[test]
fn launch_and_wait_failures_carry_reason() {
    let launch = finish_conversion(EncoderOutcome::LaunchFailed("denied".to_string()));
    assert!(!launch.remove_output);
    assert_eq!(launch.result.err().unwrap().message(), "Failed to start FFmpeg: denied");
    let wait = finish_conversion(EncoderOutcome::WaitFailed("lost".to_string()));
    assert!(!wait.remove_output);
    assert_eq!(wait.result.err().unwrap().message(), "FFmpeg execution error: lost");
}

#[test]
fn progress_line_gives_event() {
    let e = progress_event("frame=  50 fps=10", 100).expect("a frame");
    assert_eq!(e.frame, 50);
    assert_eq!(e.completed, 50);
    assert_eq!(e.total, 100);
    let percent = if e.total == 0 { 0.0f32 } else { e.completed as f32 * 100.0 / e.total as f32 };
    assert_eq!((e.frame, percent), (50, 50.0));
}

#[test]
fn progress_is_capped_at_total() {
    let e = progress_event("frame=  150 fps=10", 100).expect("a frame");
    assert_eq!(e.frame, 150);
    assert_eq!(e.completed, 100);
    let none = progress_event("frame=3", 0).expect("a frame");
    assert_eq!(none.completed, 0);
}

#[test]
fn lines_without_frames_are_ignored() {
    assert_eq!(progress_frame("Input #0, image2"), None);
    assert_eq!(progress_frame("frame="), None);
    assert_eq!(progress_frame("frame=   abc fps=1"), None);
    assert_eq!(progress_frame("frame=frame=5"), None);
    assert_eq!(progress_frame("frame=-4"), None);
    assert!(progress_event("fps=10", 10).is_none());
}

#[test]
fn progress_reads_first_word_after_marker() {
    assert_eq!(progress_frame("frame=   90 fps= 15 q=-0.0 size=N/A"), Some(90));
    assert_eq!(progress_frame("xx frame=7"), Some(7));
    assert_eq!(progress_frame("frame=\t12\tfps"), Some(12));
    assert_eq!(progress_frame("frame=+8 x"), Some(8));
}

#[test]
fn fallbacks_are_in_order() {
    assert_eq!(
        fallback_locations(Platform::Unix),
        vec!["/usr/bin/ffmpeg", "/usr/local/bin/ffmpeg", "/snap/bin/ffmpeg"]
    );
    assert_eq!(fallback_locations(Platform::MacOs)[0], "/opt/homebrew/bin/ffmpeg");
    assert_eq!(fallback_locations(Platform::Windows).len(), 3);
}

#[test]
fn search_path_wins_then_first_existing_fallback() {
    let c = fallback_locations(Platform::Unix);
    assert_eq!(
        locate_encoder(Some("/bin/ffmpeg".to_string()), c.clone(), vec![true, true, true]),
        Some("/bin/ffmpeg".to_string())
    );
    assert_eq!(
        locate_encoder(None, c.clone(), vec![false, true, true]),
        Some("/usr/local/bin/ffmpeg".to_string())
    );
    assert_eq!(locate_encoder(None, c, vec![false, false, false]), None);
}

#[test]
fn version_first_line() {
    assert_eq!(
        first_line("ffmpeg version 6.0\r\nbuilt with gcc\n"),
        Some("ffmpeg version 6.0".to_string())
    );
    assert_eq!(first_line("one line"), Some("one line".to_string()));
    assert_eq!(first_line("\nsecond"), Some(String::new()));
    assert_eq!(first_line(""), None);
}
