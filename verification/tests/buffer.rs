use cliptool::supervisor::{CancelOutcome, JobSlot, StreamTag, run_log_end_lines, run_log_header_lines, run_log_stdout_marker};
use cliptool::tool_output::ToolOutput;

#[test]
fn empty_buffer_follows_tail() {
    let out = ToolOutput::empty();
    assert!(out.lines().is_empty());
    assert_eq!(out.scroll(), 0);
}

#[test]
fn begin_stream_resets_to_two_lines() {
    let mut out = ToolOutput::empty();
    out.append_line("old".to_string());
    out.begin_stream("ffmpeg -i in.mp4 out.mp4", "Streaming ffmpeg output...");
    assert_eq!(
        out.lines(),
        &vec![
            "$ ffmpeg -i in.mp4 out.mp4".to_string(),
            "Streaming ffmpeg output...".to_string(),
        ],
    );
    assert_eq!(out.scroll(), 1);
}

#[test]
fn replace_with_command_error_scrolls_to_top() {
    let mut out = ToolOutput::empty();
    out.replace_with_command_error("yt-dlp url", "Failed to start Downloader: not found");
    assert_eq!(out.lines().len(), 2);
    assert_eq!(out.scroll(), 0);
}

#[test]
fn buffer_never_exceeds_line_cap() {
    let mut out = ToolOutput::empty();
    for i in 0..20005u32 {
        out.append_line(format!("line {i}"));
    }
    assert_eq!(out.lines().len(), 20000);
    assert_eq!(out.lines()[0], "line 5");
    assert_eq!(out.lines()[19999], "line 20004");
}

#[test]
fn overflow_shifts_scroll_by_dropped_count() {
    let mut out = ToolOutput::empty();
    for i in 0..20000u32 {
        out.append_line(format!("line {i}"));
    }
    // Scroll away from the tail so the position is a plain index.
    out.scroll_up();
    let before = out.scroll();
    out.append_line("overflow".to_string());
    assert_eq!(out.scroll(), before - 1, "scroll shifted by exactly the one dropped line");
}

#[test]
fn scroll_up_never_goes_negative() {
    let mut out = ToolOutput::empty();
    out.scroll_up();
    assert_eq!(out.scroll(), 0);
    out.page_up();
    assert_eq!(out.scroll(), 0);
}

#[test]
fn scroll_down_reenables_tail_follow() {
    let mut out = ToolOutput::empty();
    for i in 0..30u32 {
        out.append_line(format!("line {i}"));
    }
    // A 10-line viewport: the greatest scroll-top is 20.
    assert_eq!(out.clamped_scroll_for_viewport(10), 20);
    out.scroll_up();
    out.append_line("new".to_string());
    // Not following: the new line does not move the view.
    assert_eq!(out.scroll(), 19);
    out.scroll_down();
    out.scroll_down();
    // Back at the remembered bottom: following again.
    out.append_line("newer".to_string());
    assert_eq!(out.scroll(), out.lines().len() - 1);
}

#[test]
fn clamp_caps_scroll_to_viewport() {
    let mut out = ToolOutput::empty();
    for i in 0..5u32 {
        out.append_line(format!("line {i}"));
    }
    assert_eq!(out.clamped_scroll_for_viewport(10), 0);
}

#[test]
fn begin_job_occupies_slot_with_header() {
    let mut slot = JobSlot::new();
    assert!(!slot.is_running());
    slot.begin_job(
        "ffmpeg -i a.mp4 b.mp4".to_string(),
        "/tmp/b.mp4".to_string(),
        "Streaming ffmpeg output...",
    );
    assert!(slot.is_running());
    assert_eq!(slot.output.lines().len(), 2);
    assert_eq!(slot.output.lines()[0], "$ ffmpeg -i a.mp4 b.mp4");
}

#[test]
fn pump_chunk_appends_prefixed_lines() {
    let mut slot = JobSlot::new();
    slot.begin_job("cmd".to_string(), "out".to_string(), "streaming...");
    slot.pump_chunk(StreamTag::Stdout, b"hello\nwor");
    let lines = slot.output.lines();
    assert_eq!(lines[lines.len() - 1], "stdout: hello");
    slot.pump_chunk(StreamTag::Stderr, b"warn\n");
    let lines = slot.output.lines();
    assert_eq!(lines[lines.len() - 1], "stderr: warn");
}

#[test]
fn finish_flushes_tails_stderr_first() {
    let mut slot = JobSlot::new();
    slot.begin_job("cmd".to_string(), "out.mp4".to_string(), "streaming...");
    slot.pump_chunk(StreamTag::Stdout, b"tail-out");
    slot.pump_chunk(StreamTag::Stderr, b"tail-err");
    let outcome = slot.finish(true, Some(0));
    assert!(!slot.is_running());
    assert!(outcome.success);
    assert_eq!(outcome.exit_code, Some(0));
    assert_eq!(outcome.command_line, "cmd");
    assert_eq!(outcome.output_path, "out.mp4");
    assert_eq!(outcome.stdout_raw, b"tail-out".to_vec());
    assert_eq!(outcome.stderr_raw, b"tail-err".to_vec());
    let lines = slot.output.lines();
    assert_eq!(lines[lines.len() - 2], "stderr: tail-err");
    assert_eq!(lines[lines.len() - 1], "stdout: tail-out");
}

#[test]
fn reader_error_appends_one_diagnostic_line() {
    let mut slot = JobSlot::new();
    slot.begin_job("cmd".to_string(), "out".to_string(), "streaming...");
    slot.pump_reader_error(StreamTag::Stderr, "broken pipe");
    let lines = slot.output.lines();
    assert_eq!(lines[lines.len() - 1], "stderr: reader error: broken pipe");
    assert!(slot.is_running(), "a reader error does not end the job");
}

#[test]
fn poll_failure_abandons_job() {
    let mut slot = JobSlot::new();
    slot.begin_job("cmd".to_string(), "out".to_string(), "streaming...");
    slot.poll_failed("stderr: failed to poll ffmpeg: io error".to_string());
    assert!(!slot.is_running());
    let lines = slot.output.lines();
    assert_eq!(lines[lines.len() - 1], "stderr: failed to poll ffmpeg: io error");
}

#[test]
fn cancel_on_idle_slot_is_nothing_to_cancel() {
    let mut slot = JobSlot::new();
    let before = slot.output.lines().len();
    let outcome = slot.cancel(false, "Cancellation requested by user (x).".to_string());
    assert_eq!(outcome, CancelOutcome::NothingToCancel);
    assert_eq!(slot.output.lines().len(), before, "no line appended on an idle slot");
    assert!(!slot.is_running());
}

#[test]
fn cancel_after_exit_is_already_finishing() {
    let mut slot = JobSlot::new();
    slot.begin_job("cmd".to_string(), "out".to_string(), "streaming...");
    let outcome = slot.cancel(true, "note".to_string());
    assert_eq!(outcome, CancelOutcome::AlreadyFinishing);
    assert!(slot.is_running(), "the slot is cleared only by the finish poll");
}

#[test]
fn second_cancel_is_already_finishing() {
    let mut slot = JobSlot::new();
    slot.begin_job("cmd".to_string(), "out".to_string(), "streaming...");
    let first = slot.cancel(false, "Cancellation requested by user (x).".to_string());
    assert_eq!(first, CancelOutcome::KillRequested);
    let lines = slot.output.lines();
    assert_eq!(lines[lines.len() - 1], "Cancellation requested by user (x).");
    let second = slot.cancel(false, "Cancellation requested by user (x).".to_string());
    assert_eq!(second, CancelOutcome::AlreadyFinishing, "only one kill request is queued");
}

#[test]
fn spawn_failure_leaves_two_line_output_and_idle_slot() {
    let mut slot = JobSlot::new();
    slot.fail_spawn("ffmpeg -i missing.mp4 out.mp4", "Failed to start ffmpeg: No such file");
    assert!(!slot.is_running());
    assert_eq!(
        slot.output.lines(),
        &vec![
            "$ ffmpeg -i missing.mp4 out.mp4".to_string(),
            "Failed to start ffmpeg: No such file".to_string(),
        ],
    );
}

#[test]
fn spawn_failure_log_record_has_no_exit_code_and_a_launch_error() {
    let header = run_log_header_lines(
        "ffmpeg -i missing.mp4 out.mp4",
        None,
        Some("No such file or directory"),
        1700000000,
    );
    assert_eq!(
        header,
        vec![
            "=== ffmpeg run @ 1700000000 ===".to_string(),
            "command: ffmpeg -i missing.mp4 out.mp4".to_string(),
            "exit_code: <none>".to_string(),
            "launch_error: No such file or directory".to_string(),
            "--- stderr ---".to_string(),
        ],
    );
    assert_eq!(run_log_stdout_marker(), "--- stdout ---");
    assert_eq!(run_log_end_lines(), vec!["=== end ===".to_string(), String::new()]);
}

#[test]
fn finished_run_log_record_has_exit_code() {
    let header = run_log_header_lines("ffmpeg", Some(1), None, 42);
    assert_eq!(header[2], "exit_code: 1");
    let negative = run_log_header_lines("ffmpeg", Some(-9), None, 42);
    assert_eq!(negative[2], "exit_code: -9");
}

#[test]
fn spinner_cycles_through_four_frames() {
    let mut slot = JobSlot::new();
    assert_eq!(slot.spinner_frame, 0);
    for expected in [1usize, 2, 3, 0, 1] {
        slot.tick_spinner();
        assert_eq!(slot.spinner_frame, expected);
    }
}

#[test]
fn pump_chunks_split_anywhere_give_the_same_lines() {
    let input: &[u8] = b"frame=1\rframe=2\nDone.";
    let mut whole = JobSlot::new();
    whole.begin_job("cmd".to_string(), "out".to_string(), "streaming...");
    whole.pump_chunk(StreamTag::Stdout, input);
    let _ = whole.finish(true, Some(0));
    let expected = whole.output.lines().clone();
    for cut in 0..=input.len() {
        let (a, b) = input.split_at(cut);
        let mut slot = JobSlot::new();
        slot.begin_job("cmd".to_string(), "out".to_string(), "streaming...");
        slot.pump_chunk(StreamTag::Stdout, a);
        slot.pump_chunk(StreamTag::Stdout, b);
        let _ = slot.finish(true, Some(0));
        assert_eq!(slot.output.lines(), &expected, "split at {cut}");
    }
}
