use cliptool::media::{
    default_output_name, enforce_output_extension, is_audio_file, is_audio_output_format,
    is_editable_media_file, is_video_file, next_available_output_path, normalize_output_format,
    output_format_for_path, output_path_without_numbered_suffix, resolve_output_path,
    scaled_resolution_for_percent, bitrate_kbps_from_bits_per_second, shell_quote,
    split_numbered_suffix, summarize_ffmpeg_error,
};

fn strings(items: &[&str]) -> Vec<String> {
    items.iter().map(|s| s.to_string()).collect()
}

#[test]
fn fresh_path_is_returned_unchanged() {
    let existing = strings(&["/v/other.mp4"]);
    assert_eq!(next_available_output_path("/v/clip.mp4", &existing), "/v/clip.mp4");
}

#[test]
fn occupied_path_gets_numbered_suffix() {
    let existing = strings(&["/v/clip.mp4"]);
    assert_eq!(next_available_output_path("/v/clip.mp4", &existing), "/v/clip(1).mp4");
}

#[test]
fn repeated_resolution_is_idempotent_until_created() {
    let existing = strings(&["/v/clip.mp4"]);
    let first = next_available_output_path("/v/clip.mp4", &existing);
    let second = next_available_output_path("/v/clip.mp4", &existing);
    assert_eq!(first, second, "an unchanged filesystem gives the same path twice");
    // Creating the first result bumps the suffix for the next call.
    let mut existing2 = existing.clone();
    existing2.push(first.clone());
    let third = next_available_output_path("/v/clip.mp4", &existing2);
    assert_eq!(first, "/v/clip(1).mp4");
    assert_eq!(third, "/v/clip(2).mp4");
}

#[test]
fn numbered_stem_seeds_the_search() {
    let existing = strings(&["/v/clip(3).mp4", "/v/clip(4).mp4"]);
    assert_eq!(next_available_output_path("/v/clip(3).mp4", &existing), "/v/clip(5).mp4");
}

#[test]
fn search_skips_every_occupied_candidate() {
    let existing = strings(&["clip.mp4", "clip(1).mp4", "clip(2).mp4"]);
    assert_eq!(next_available_output_path("clip.mp4", &existing), "clip(3).mp4");
}

#[test]
fn extensionless_candidates_have_no_dot() {
    let existing = strings(&["notes"]);
    assert_eq!(next_available_output_path("notes", &existing), "notes(1)");
}

#[test]
fn split_suffix_parses_trailing_number() {
    assert_eq!(split_numbered_suffix("clip(7)"), ("clip".to_string(), Some(7)));
    assert_eq!(split_numbered_suffix("clip"), ("clip".to_string(), None));
    assert_eq!(split_numbered_suffix("clip(a)"), ("clip(a)".to_string(), None));
    assert_eq!(split_numbered_suffix("(7)"), ("(7)".to_string(), None));
    assert_eq!(split_numbered_suffix("clip()"), ("clip()".to_string(), None));
}

#[test]
fn without_suffix_strips_the_number() {
    assert_eq!(output_path_without_numbered_suffix("/v/clip(2).mp4"), "/v/clip.mp4");
    assert_eq!(output_path_without_numbered_suffix("/v/clip.mp4"), "/v/clip.mp4");
    assert_eq!(output_path_without_numbered_suffix("clip(2)"), "clip");
}

#[test]
fn resolve_keeps_paths_with_separators() {
    assert_eq!(resolve_output_path("/in/video.mp4", "/abs/out.mp4"), "/abs/out.mp4");
    assert_eq!(resolve_output_path("/in/video.mp4", "sub/out.mp4"), "sub/out.mp4");
    assert_eq!(resolve_output_path("/in/video.mp4", "out.mp4"), "/in/out.mp4");
    assert_eq!(resolve_output_path("video.mp4", "out.mp4"), "out.mp4");
}

#[test]
fn enforce_extension_rules() {
    assert_eq!(enforce_output_extension("   ", "mkv"), "output.mkv");
    assert_eq!(enforce_output_extension("clip.avi", "mp4"), "clip.mp4");
    assert_eq!(enforce_output_extension("clip", "gif"), "clip.gif");
    assert_eq!(enforce_output_extension("clip", "weird"), "clip.mp4");
    assert_eq!(enforce_output_extension("/d/clip.old.avi", "mov"), "/d/clip.old.mov");
}

#[test]
fn format_normalization_is_case_insensitive() {
    assert_eq!(normalize_output_format("MP3"), "mp3");
    assert_eq!(normalize_output_format("FlAc"), "flac");
    assert_eq!(normalize_output_format("unknown"), "mp4");
    assert!(is_audio_output_format("WAV"));
    assert!(!is_audio_output_format("mkv"));
}

#[test]
fn media_file_detection_by_extension() {
    assert!(is_video_file("a/b/movie.MP4"));
    assert!(is_video_file("movie.webm"));
    assert!(!is_video_file("movie.txt"));
    assert!(!is_video_file("movie"));
    assert!(is_audio_file("song.FLAC"));
    assert!(!is_audio_file("song.mp4"));
    assert!(is_editable_media_file("x.mkv"));
    assert!(is_editable_media_file("x.ogg"));
    assert!(!is_editable_media_file("x.doc"));
}

#[test]
fn default_name_keeps_stem_and_extension() {
    assert_eq!(default_output_name("/v/clip.mp4"), "clip.mp4");
    assert_eq!(default_output_name("/v/clip"), "clip");
    assert_eq!(default_output_name("/v/"), "output");
}

#[test]
fn format_for_path_uses_extension() {
    assert_eq!(output_format_for_path("a.MOV"), "mov");
    assert_eq!(output_format_for_path("a.xyz"), "mp4");
    assert_eq!(output_format_for_path("a"), "mp4");
}

#[test]
fn error_summary_takes_last_meaningful_line() {
    let stderr = "frame=1\nError while decoding\nConversion failed!\n\n";
    assert_eq!(summarize_ffmpeg_error(stderr), "Error while decoding");
    assert_eq!(summarize_ffmpeg_error("Conversion failed!\n"), "unknown ffmpeg error");
    assert_eq!(summarize_ffmpeg_error(""), "unknown ffmpeg error");
    assert_eq!(summarize_ffmpeg_error("  padded detail  \n"), "padded detail");
}

#[test]
fn shell_quote_forms() {
    assert_eq!(shell_quote(""), "''");
    assert_eq!(shell_quote("plain-file_1.mp4"), "plain-file_1.mp4");
    assert_eq!(shell_quote("has space"), "'has space'");
    assert_eq!(shell_quote("it's"), "'it'\\''s'");
}

#[test]
fn scaling_rounds_and_stays_even() {
    assert_eq!(scaled_resolution_for_percent(1920, 1080, 100), (1920, 1080));
    assert_eq!(scaled_resolution_for_percent(1920, 1080, 50), (960, 540));
    // 1921 * 50% = 960.5 which rounds to 961, then drops to the even 960.
    assert_eq!(scaled_resolution_for_percent(1921, 1080, 50), (960, 540));
    // Tiny results are floored at 2.
    assert_eq!(scaled_resolution_for_percent(2, 2, 1), (2, 2));
}

#[test]
fn bitrate_kbps_rounds_to_nearest() {
    assert_eq!(bitrate_kbps_from_bits_per_second(0), None);
    assert_eq!(bitrate_kbps_from_bits_per_second(1), Some(1));
    assert_eq!(bitrate_kbps_from_bits_per_second(1499), Some(1));
    assert_eq!(bitrate_kbps_from_bits_per_second(1500), Some(2));
    assert_eq!(bitrate_kbps_from_bits_per_second(8_000_000), Some(8000));
}
