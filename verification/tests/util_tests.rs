use upscale::cli::{as_mp4, default_output, find_last_dot, resolve_output, Model, Scale};
use upscale::ffmpeg::{cfr_args, decoder_args, encoder_args, probe_args};
use upscale::realesrgan::upscaler_args;
use upscale::util::{
    estimate_remaining_secs, frame_file_name, pretty_time, progress_bar, u64_dec_string,
};

#[test]
fn decimal_rendering() {
    assert_eq!(u64_dec_string(0), "0");
    assert_eq!(u64_dec_string(7), "7");
    assert_eq!(u64_dec_string(1234567890), "1234567890");
    assert_eq!(u64_dec_string(u64::MAX), "18446744073709551615");
}

#[test]
fn frame_file_names_are_zero_padded() {
    assert_eq!(frame_file_name(0), "frame0000.png");
    assert_eq!(frame_file_name(37), "frame0037.png");
    assert_eq!(frame_file_name(9999), "frame9999.png");
    assert_eq!(frame_file_name(12345), "frame12345.png");
}

#[test]
fn pretty_time_formats() {
    assert_eq!(pretty_time(0), "0s");
    assert_eq!(pretty_time(59), "59s");
    assert_eq!(pretty_time(60), "1m0s");
    assert_eq!(pretty_time(3600), "1h0s");
    assert_eq!(pretty_time(3661), "1h1m1s");
    assert_eq!(pretty_time(7322), "2h2m2s");
}

#[test]
fn progress_bar_renders() {
    assert_eq!(progress_bar(10, 5, 10), "[####....]");
    assert_eq!(progress_bar(30, 0, 25), format!("[{}]", ".".repeat(28)));
    assert_eq!(progress_bar(30, 25, 25), format!("[{}]", "#".repeat(28)));
}

#[test]
fn estimate_scales_and_saturates() {
    assert_eq!(estimate_remaining_secs(10, 15, 10), 15);
    assert_eq!(estimate_remaining_secs(0, 100, 10), 0);
    assert_eq!(estimate_remaining_secs(u64::MAX, u64::MAX, 1), u64::MAX);
}

#[test]
fn scale_and_model_names() {
    assert_eq!(Scale::One.as_str(), "1");
    assert_eq!(Scale::Two.as_str(), "2");
    assert_eq!(Scale::Three.as_str(), "3");
    assert_eq!(Scale::Four.as_str(), "4");
    assert_eq!(Model::Realesranimevideov3.as_str(), "realesr-animevideov3");
    assert_eq!(Model::Realesrganx4plus.as_str(), "realesrgan-x4plus");
    assert_eq!(Model::Realesrganx4plusanime.as_str(), "realesrgan-x4plus-anime");
    assert_eq!(Model::Realesrnetx4plus.as_str(), "realesrnet-x4plus");
}

#[test]
fn output_paths() {
    assert_eq!(find_last_dot("clip.mkv"), Some(4));
    assert_eq!(find_last_dot("noext"), None);
    assert_eq!(default_output("clip.mkv"), "clip_upscaled.mp4");
    assert_eq!(default_output("a.b.c"), "a.b_upscaled.mp4");
    assert_eq!(as_mp4("clip.mkv"), "clip.mp4");
    assert_eq!(resolve_output("clip.mkv", Some("out.mp4".to_string()), false), "out.mp4");
    assert_eq!(resolve_output("clip.mkv", Some("dir".to_string()), true), "dir/clip.mp4");
    assert_eq!(resolve_output("clip.mkv", None, false), "clip_upscaled.mp4");
}

#[test]
fn decoder_command_line() {
    assert_eq!(
        decoder_args("in.mkv"),
        vec!["ffmpeg", "-loglevel", "error", "-i", "in.mkv", "-c:v", "png", "-f", "image2pipe", "-"]
    );
}

#[test]
fn encoder_command_line() {
    assert_eq!(
        encoder_args("30/1", "in.mkv", "out.mp4"),
        vec![
            "ffmpeg",
            "-loglevel",
            "error",
            "-f",
            "image2pipe",
            "-framerate",
            "30/1",
            "-i",
            "-",
            "-i",
            "in.mkv",
            "-map",
            "0:v:0",
            "-map",
            "1:a:0?",
            "-c:a",
            "copy",
            "-c:v",
            "libx265",
            "-x265-params",
            "log-level=none",
            "out.mp4"
        ]
    );
}

#[test]
fn probe_command_line() {
    assert_eq!(
        probe_args("in.mkv"),
        vec![
            "ffprobe",
            "-count_frames",
            "-select_streams",
            "v:0",
            "-show_streams",
            "-print_format",
            "json",
            "in.mkv"
        ]
    );
}

#[test]
fn conversion_command_line() {
    assert_eq!(
        cfr_args("in.mkv", "/tmp/work/converted_to_cfr.mp4"),
        vec![
            "ffmpeg",
            "-loglevel",
            "error",
            "-i",
            "in.mkv",
            "-c:a",
            "copy",
            "-vsync",
            "cfr",
            "/tmp/work/converted_to_cfr.mp4"
        ]
    );
}

#[test]
fn upscaler_command_line() {
    assert_eq!(
        upscaler_args("/cache/realesrgan", "/work/in", "/work/out", Scale::Two, Model::Realesranimevideov3),
        vec![
            "/cache/realesrgan",
            "-s",
            "2",
            "-i",
            "/work/in",
            "-o",
            "/work/out",
            "-n",
            "realesr-animevideov3"
        ]
    );
}
