use cliptool::form::{
    default_output_bitrate_kbps, default_output_fps, on_off, parse_output_bitrate_kbps,
    parse_output_fps, parse_output_scale_percent, parse_scale_percent_for_preview, spinner_glyph,
    truncate_middle, truncate_tail,
};
use cliptool::stats::{
    build_video_stats, first_nonempty_line, format_bitrate, format_bytes, fps_display,
    last_nonempty_line, lookup_value, parse_key_value_lines, parse_probe_micros,
    parse_probe_times,
};

#[test]
fn key_value_lines_split_at_first_equals() {
    let pairs = parse_key_value_lines("codec_name=h264\n\nwidth=1920\njunk line\nduration=1.5\n");
    assert_eq!(pairs.len(), 3);
    assert_eq!(pairs[0], ("codec_name".to_string(), "h264".to_string()));
    assert_eq!(pairs[1], ("width".to_string(), "1920".to_string()));
    assert_eq!(pairs[2], ("duration".to_string(), "1.5".to_string()));
    assert_eq!(lookup_value(&pairs, "width"), Some("1920".to_string()));
    assert_eq!(lookup_value(&pairs, "height"), None);
}

#[test]
fn later_pairs_shadow_earlier_ones() {
    let pairs = parse_key_value_lines("k=a\nk=b\n");
    assert_eq!(lookup_value(&pairs, "k"), Some("b".to_string()));
}

#[test]
fn byte_formatting_uses_two_decimals() {
    assert_eq!(format_bytes(512), "512 B");
    assert_eq!(format_bytes(1536), "1.50 KB");
    assert_eq!(format_bytes(1048576), "1.00 MB");
    assert_eq!(format_bytes(1073741824), "1.00 GB");
    assert_eq!(format_bytes(1610612736), "1.50 GB");
}

#[test]
fn bitrate_formatting_uses_decimal_units() {
    assert_eq!(format_bitrate(999), "999 bps");
    assert_eq!(format_bitrate(1500), "1.50 Kbps");
    assert_eq!(format_bitrate(2500000), "2.50 Mbps");
}

#[test]
fn probe_micros_parse_exactly() {
    assert_eq!(parse_probe_micros("12.5"), Some(12_500_000));
    assert_eq!(parse_probe_micros(" 3 "), Some(3_000_000));
    assert_eq!(parse_probe_micros("0.000001"), Some(1));
    assert_eq!(parse_probe_micros("1.2345678"), Some(1_234_567));
    assert_eq!(parse_probe_micros("N/A"), None);
    assert_eq!(parse_probe_micros(""), None);
    assert_eq!(parse_probe_micros("-1.5"), None);
}

#[test]
fn probe_times_round_to_whole_seconds() {
    let (start, end, bounds) = parse_probe_times("0.000000\n125.600000\n");
    assert_eq!(bounds.start_seconds, 0);
    assert_eq!(bounds.end_seconds, 126);
    assert_eq!(start.to_ffmpeg_timestamp(), "00:00:00");
    assert_eq!(end.to_ffmpeg_timestamp(), "00:02:06");
}

#[test]
fn probe_times_tolerate_garbage() {
    let (start, end, bounds) = parse_probe_times("N/A\n\n");
    assert_eq!(bounds.start_seconds, 0);
    assert_eq!(bounds.end_seconds, 0);
    assert_eq!(start.to_ffmpeg_timestamp(), "00:00:00");
    assert_eq!(end.to_ffmpeg_timestamp(), "00:00:00");
}

#[test]
fn fps_display_rounds_fractions() {
    assert_eq!(fps_display("30000/1001"), "29.97");
    assert_eq!(fps_display("30/1"), "30.00");
    assert_eq!(fps_display("0/0"), "n/a");
    assert_eq!(fps_display("N/A"), "n/a");
}

#[test]
fn stats_assembly_from_probe_pairs() {
    let pairs = parse_key_value_lines(
        "codec_name=h264\nwidth=1920\nheight=1080\navg_frame_rate=30000/1001\nduration=125.6\nsize=1048576\nbit_rate=8000000\n",
    );
    let stats = build_video_stats(&pairs, "aac".to_string());
    assert_eq!(stats.video_codec, "h264");
    assert_eq!(stats.width, Some(1920));
    assert_eq!(stats.height, Some(1080));
    assert_eq!(stats.resolution, "1920x1080");
    assert_eq!(stats.fps, "29.97");
    assert_eq!(stats.duration, "00:02:06");
    assert_eq!(stats.size, "1.00 MB");
    assert_eq!(stats.bitrate, "8.00 Mbps");
    assert_eq!(stats.bitrate_kbps, Some(8000));
    assert_eq!(stats.audio_codec, "aac");
}

#[test]
fn stats_assembly_with_missing_fields() {
    let pairs = parse_key_value_lines("codec_name=vp9\n");
    let stats = build_video_stats(&pairs, "n/a".to_string());
    assert_eq!(stats.video_codec, "vp9");
    assert_eq!(stats.width, None);
    assert_eq!(stats.resolution, "n/a");
    assert_eq!(stats.fps, "n/a");
    assert_eq!(stats.duration, "n/a");
    assert_eq!(stats.size, "n/a");
    assert_eq!(stats.bitrate, "n/a");
    assert_eq!(stats.bitrate_kbps, None);
}

#[test]
fn first_and_last_nonempty_lines() {
    assert_eq!(first_nonempty_line("\n  \n aac \nmore\n"), Some("aac".to_string()));
    assert_eq!(first_nonempty_line("\n \n"), None);
    assert_eq!(last_nonempty_line("one\ntwo\n  \n"), Some("two".to_string()));
    assert_eq!(last_nonempty_line(""), None);
}

#[test]
fn fps_field_accepts_plain_decimals() {
    assert_eq!(parse_output_fps("29.97"), Some("29.97".to_string()));
    assert_eq!(parse_output_fps(" 30 "), Some("30".to_string()));
    assert_eq!(parse_output_fps(".5"), Some(".5".to_string()));
    assert_eq!(parse_output_fps("0"), None);
    assert_eq!(parse_output_fps("0.00"), None);
    assert_eq!(parse_output_fps(""), None);
    assert_eq!(parse_output_fps("1.2.3"), None);
    assert_eq!(parse_output_fps("."), None);
    assert_eq!(parse_output_fps("abc"), None);
}

#[test]
fn bitrate_field_requires_positive_whole_number() {
    assert_eq!(parse_output_bitrate_kbps("8000"), Some(8000));
    assert_eq!(parse_output_bitrate_kbps(" 1 "), Some(1));
    assert_eq!(parse_output_bitrate_kbps("0"), None);
    assert_eq!(parse_output_bitrate_kbps("12.5"), None);
    assert_eq!(parse_output_bitrate_kbps(""), None);
    assert_eq!(parse_output_bitrate_kbps("99999999999"), None);
}

#[test]
fn scale_field_defaults_to_full_size() {
    assert_eq!(parse_output_scale_percent(""), Some(100));
    assert_eq!(parse_output_scale_percent("  "), Some(100));
    assert_eq!(parse_output_scale_percent("55"), Some(55));
    assert_eq!(parse_output_scale_percent("0"), None);
    assert_eq!(parse_output_scale_percent("101"), None);
    assert_eq!(parse_scale_percent_for_preview("25"), Some(25));
}

#[test]
fn default_form_values_fall_back() {
    assert_eq!(default_output_fps(None), "30");
    assert_eq!(default_output_bitrate_kbps(None), "8000");
    let pairs = parse_key_value_lines("avg_frame_rate=30000/1001\nbit_rate=5000000\n");
    let stats = build_video_stats(&pairs, "n/a".to_string());
    assert_eq!(default_output_fps(Some(&stats)), "29.97");
    assert_eq!(default_output_bitrate_kbps(Some(&stats)), "5000");
}

#[test]
fn truncation_keeps_the_requested_width() {
    assert_eq!(truncate_tail("abcdef", 10), "abcdef");
    assert_eq!(truncate_tail("abcdef", 4), "\u{2026}def");
    assert_eq!(truncate_tail("abcdef", 1), "\u{2026}");
    assert_eq!(truncate_tail("abcdef", 0), "");
    assert_eq!(truncate_middle("abcdefgh", 20), "abcdefgh");
    assert_eq!(truncate_middle("abcdefgh", 7), "ab...gh");
    assert_eq!(truncate_middle("abcdefgh", 3), "...");
    assert_eq!(truncate_middle("abcdefgh", 2), "..");
}

#[test]
fn spinner_and_toggle_labels() {
    assert_eq!(spinner_glyph(0), '|');
    assert_eq!(spinner_glyph(1), '/');
    assert_eq!(spinner_glyph(2), '-');
    assert_eq!(spinner_glyph(3), '\\');
    assert_eq!(spinner_glyph(4), '|');
    assert_eq!(on_off(true), "ON");
    assert_eq!(on_off(false), "OFF");
}
