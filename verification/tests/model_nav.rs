use cliptool::model::{byte_index_for_char, is_top_form_focus, Focus, RightTab, TimeInput};

#[test]
fn focus_cycles_through_three_panes() {
    assert_eq!(Focus::Left.next_window(), Focus::RightTop);
    assert_eq!(Focus::RightTop.next_window(), Focus::RightBottom);
    assert_eq!(Focus::RightBottom.next_window(), Focus::Left);
    assert_eq!(Focus::Left.previous_window(), Focus::RightBottom);
    assert_eq!(Focus::RightTop.previous_window(), Focus::Left);
    assert!(is_top_form_focus(Focus::RightTop));
    assert!(!is_top_form_focus(Focus::Left));
}

#[test]
fn tabs_have_numbers_and_labels() {
    assert_eq!(RightTab::Trim.next(), RightTab::Hello);
    assert_eq!(RightTab::Hello.previous(), RightTab::Trim);
    assert_eq!(RightTab::Trim.number(), 1);
    assert_eq!(RightTab::Hello.number(), 2);
    assert_eq!(RightTab::Trim.label(), "Trim");
    assert_eq!(RightTab::from_number(2), Some(RightTab::Hello));
    assert_eq!(RightTab::from_number(3), None);
}

#[test]
fn zero_time_is_all_zeros() {
    let t = TimeInput::zero();
    assert_eq!(t.to_ffmpeg_timestamp(), "00:00:00");
    assert_eq!(t.to_seconds(), 0);
    assert!(t.has_valid_minute_second_range());
}

#[test]
fn from_seconds_splits_fields() {
    let t = TimeInput::from_seconds(3723);
    assert_eq!(t.to_ffmpeg_timestamp(), "01:02:03");
    assert_eq!(t.to_seconds(), 3723);
    assert_eq!(t.part(0), "01");
    assert_eq!(t.part(1), "02");
    assert_eq!(t.part(2), "03");
    assert_eq!(t.part(9), "00");
}

#[test]
fn from_seconds_caps_hours_at_two_digits() {
    let t = TimeInput::from_seconds(100 * 3600);
    assert_eq!(t.part(0), "99");
}

#[test]
fn typed_digits_shift_into_the_field() {
    let mut t = TimeInput::zero();
    t.push_digit_to_part(1, '5');
    assert_eq!(t.to_ffmpeg_timestamp(), "00:05:00");
    t.push_digit_to_part(1, '9');
    assert_eq!(t.to_ffmpeg_timestamp(), "00:59:00");
    t.push_digit_to_part(1, '1');
    assert_eq!(t.to_ffmpeg_timestamp(), "00:91:00");
    assert!(!t.has_valid_minute_second_range());
    t.push_digit_to_part(1, 'x');
    assert_eq!(t.to_ffmpeg_timestamp(), "00:91:00");
    t.clear_part(1);
    assert_eq!(t.to_ffmpeg_timestamp(), "00:00:00");
    assert!(t.has_valid_minute_second_range());
}

#[test]
fn byte_index_counts_utf8_lengths() {
    assert_eq!(byte_index_for_char("abc", 0), 0);
    assert_eq!(byte_index_for_char("abc", 2), 2);
    assert_eq!(byte_index_for_char("abc", 9), 3);
    // Two-byte characters move the byte index faster than the char index.
    assert_eq!(byte_index_for_char("\u{e9}b", 1), 2);
    assert_eq!(byte_index_for_char("\u{e9}b", 2), 3);
}
