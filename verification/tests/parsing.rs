use cliptool::quality::{
    QualityCandidate, QualityChoice, compare_quality_candidates, default_downloader_quality_choice,
    extract_fps_token, extract_resolution_token, extract_size_token, format_quality_columns,
    is_format_id_token, parse_quality_choices_from_format_list, parse_size_bytes,
    quality_position, visible_window,
};
use std::cmp::Ordering;

#[test]
fn default_choice_matches_fixed_label() {
    let auto = default_downloader_quality_choice();
    assert_eq!(auto.selector, "bestvideo+bestaudio/best");
    assert_eq!(auto.label, "AUTO    auto best      --     --         auto  video");
}

#[test]
fn columns_are_fixed_width() {
    let row = format_quality_columns("137", "mp4", "1920x1080", "30fps", "50MiB", "no", "video");
    assert_eq!(row, "137     mp4  1920x1080 30fps  50MiB      no    video");
}

#[test]
fn format_id_tokens() {
    assert!(is_format_id_token("137"));
    assert!(is_format_id_token("sb-0.1_x"));
    assert!(!is_format_id_token(""));
    assert!(!is_format_id_token("137:a"));
}

#[test]
fn resolution_token_extraction() {
    assert_eq!(extract_resolution_token("137 mp4 1920x1080 30fps"), Some("1920x1080".to_string()));
    assert_eq!(extract_resolution_token("x [1280x720], rest"), Some("1280x720".to_string()));
    assert_eq!(extract_resolution_token("audio m4a 48k"), None);
    assert_eq!(extract_resolution_token("bad 1920x"), None);
}

#[test]
fn fps_token_extraction() {
    assert_eq!(extract_fps_token("a 30fps b"), Some("30fps".to_string()));
    assert_eq!(extract_fps_token("a 30fps, b"), Some("30fps".to_string()));
    assert_eq!(extract_fps_token("a fps b"), None);
    assert_eq!(extract_fps_token("a 30 b"), None);
}

#[test]
fn size_token_extraction() {
    assert_eq!(extract_size_token("a 50MiB b"), Some("50MiB".to_string()));
    assert_eq!(extract_size_token("a ~1.40GiB b"), Some("~1.40GiB".to_string()));
    assert_eq!(extract_size_token("a [10MiB] b"), Some("10MiB".to_string()));
    assert_eq!(extract_size_token("a 48k b"), None);
}

#[test]
fn size_parsing_is_exact() {
    assert_eq!(parse_size_bytes("1.5KiB"), Some(1536));
    assert_eq!(parse_size_bytes("10MiB"), Some(10 * 1024 * 1024));
    assert_eq!(parse_size_bytes("~2GiB"), Some(2 * 1024 * 1024 * 1024));
    assert_eq!(parse_size_bytes("2.05MiB"), Some(2149581));
    assert_eq!(parse_size_bytes("7B"), Some(7));
    assert_eq!(parse_size_bytes("--"), None);
    assert_eq!(parse_size_bytes(""), None);
    assert_eq!(parse_size_bytes("123"), None);
    assert_eq!(parse_size_bytes("KiB"), None);
    assert_eq!(parse_size_bytes("1.2.3KiB"), None);
}

fn candidate(selector: &str, size: Option<u64>, index: usize) -> QualityCandidate {
    QualityCandidate {
        choice: QualityChoice { selector: selector.to_string(), label: String::new() },
        size_bytes: size,
        original_index: index,
    }
}

#[test]
fn candidate_ranking() {
    let small = candidate("a", Some(10), 0);
    let large = candidate("b", Some(50), 1);
    let unsized_row = candidate("c", None, 2);
    assert_eq!(compare_quality_candidates(&small, &large), Ordering::Less);
    assert_eq!(compare_quality_candidates(&large, &small), Ordering::Greater);
    assert_eq!(compare_quality_candidates(&small, &unsized_row), Ordering::Less);
    assert_eq!(compare_quality_candidates(&unsized_row, &small), Ordering::Greater);
    let tie = candidate("d", Some(10), 3);
    assert_eq!(compare_quality_candidates(&small, &tie), Ordering::Less);
    assert_eq!(compare_quality_candidates(&small, &small), Ordering::Equal);
}

const TABLE: &str = "\
[youtube] Extracting URL\n\
ID  EXT   RESOLUTION FPS    FILESIZE   MORE\n\
------------------------------------------\n\
137 mp4   1920x1080  30fps  50MiB      video only\n\
136 mp4   1280x720   30fps  10MiB      video only\n\
135 mp4   854x480    30fps             video only\n";

#[test]
fn rows_rank_by_size_with_unsized_last() {
    let choices = parse_quality_choices_from_format_list(TABLE);
    assert_eq!(choices.len(), 4);
    assert_eq!(choices[0].selector, "bestvideo+bestaudio/best");
    assert_eq!(choices[1].selector, "136+bestaudio/best");
    assert_eq!(choices[2].selector, "137+bestaudio/best");
    assert_eq!(choices[3].selector, "135+bestaudio/best");
    for choice in &choices[1..] {
        assert!(choice.selector.ends_with("+bestaudio/best"));
    }
    assert_eq!(
        choices[2].label,
        format_quality_columns("137", "mp4", "1920x1080", "30fps", "50MiB", "no", "video"),
    );
}

#[test]
fn muxed_rows_use_bare_selector() {
    let table = "\
ID  EXT\n\
22 mp4 1280x720 30fps 25MiB https\n";
    let choices = parse_quality_choices_from_format_list(table);
    assert_eq!(choices.len(), 2);
    assert_eq!(choices[1].selector, "22");
    assert_eq!(
        choices[1].label,
        format_quality_columns("22", "mp4", "1280x720", "30fps", "25MiB", "yes", "muxed"),
    );
}

#[test]
fn rejected_rows_are_skipped() {
    let table = "\
ID  EXT\n\
251 webm audio only 9MiB\n\
sb0 mhtml 48x27 storyboard\n\
bad! mp4 640x360 5MiB\n\
140 m4a no-res-here 3MiB\n";
    let choices = parse_quality_choices_from_format_list(table);
    assert_eq!(choices.len(), 1, "only the synthetic default remains");
}

#[test]
fn rows_before_the_header_are_ignored() {
    let table = "\
600 webm 256x144 13fps 4MiB video only\n\
ID  EXT\n\
602 mp4 256x144 13fps 5MiB video only\n";
    let choices = parse_quality_choices_from_format_list(table);
    assert_eq!(choices.len(), 2);
    assert_eq!(choices[1].selector, "602+bestaudio/best");
}

#[test]
fn duplicate_selectors_keep_first_row() {
    let table = "\
ID  EXT\n\
22 mp4 1280x720 30fps 25MiB https\n\
22 mp4 1280x720 30fps 30MiB https\n";
    let choices = parse_quality_choices_from_format_list(table);
    assert_eq!(choices.len(), 2);
    assert_eq!(
        choices[1].label,
        format_quality_columns("22", "mp4", "1280x720", "30fps", "25MiB", "yes", "muxed"),
    );
}

#[test]
fn selector_matching_the_default_is_not_repeated() {
    let table = "\
ID  EXT\n\
bestvideo+bestaudio/best mp4 1280x720 25MiB\n";
    let choices = parse_quality_choices_from_format_list(table);
    // The identifier contains characters outside the identifier set, so the
    // row is rejected outright; only the default remains either way.
    assert_eq!(choices.len(), 1);
}

#[test]
fn position_and_window_helpers() {
    assert_eq!(quality_position(0, 0), (0, 0));
    assert_eq!(quality_position(5, 2), (3, 5));
    assert_eq!(quality_position(5, 99), (5, 5));
    // Selection centered, window clamped to the list.
    assert_eq!(visible_window(10, 5, 4), (3, 7, 2));
    assert_eq!(visible_window(10, 0, 4), (0, 4, 0));
    assert_eq!(visible_window(10, 9, 4), (6, 10, 3));
    assert_eq!(visible_window(3, 1, 10), (0, 3, 1));
}

#[test]
fn candidate_count_is_capped() {
    let mut table = String::from("ID  EXT\n");
    for i in 0..85 {
        table.push_str(&format!("f{i} mp4 640x360 30fps {}MiB video only\n", i + 1));
    }
    let choices = parse_quality_choices_from_format_list(&table);
    assert_eq!(choices.len(), 80, "the synthetic default plus at most 79 rows");
    assert_eq!(choices[1].selector, "f0+bestaudio/best", "the smallest size ranks first");
}
