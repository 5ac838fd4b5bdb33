//! Job-slot supervision: the state of one external process per tool slot.
//!
//! A slot is either idle or holds one job.  While a job runs, raw output
//! chunks are routed through the assembler into the slot's line buffer with
//! a stream-name prefix; a non-blocking poll observes the exit and finishes
//! the job, flushing both pending tails and classifying the outcome; a
//! cancel request marks the job and asks the caller to terminate the child,
//! and the slot is freed only by the finish path.  The caller performs the
//! spawning, polling, killing and log writing; every decision and every
//! buffer update is made here.
use vstd::prelude::*;
use crate::assembler::{
    chunk_lines, chunk_pending, consume_stream_chunk, flush_emits, flush_pending_line,
    flushed_text,
};
use crate::text::{dec_digits, u64_to_dec};
use crate::tool_output::{appended_lines, append_dropped, ToolOutput};

verus! {

/// Which stream of the child a chunk came from.
#[derive(Debug, Clone, Copy, PartialEq, Eq, Structural)]
pub enum StreamTag {
    Stdout,
    Stderr,
}

/// The display name a stream's lines are prefixed with.
pub open spec fn stream_name_spec(tag: StreamTag) -> Seq<char> {
    match tag {
        StreamTag::Stdout => "stdout"@,
        StreamTag::Stderr => "stderr"@,
    }
}

/// The name of a stream, as shown before each of its lines.
pub fn stream_name(tag: StreamTag) -> (r: &'static str)
    ensures
        r@ == stream_name_spec(tag),
{
    match tag {
        StreamTag::Stdout => "stdout",
        StreamTag::Stderr => "stderr",
    }
}

/// The live state of one spawned process: its command line and intended
/// output path, the full raw transcripts, and the not-yet-terminated tail
/// of each stream.
pub struct Job {
    pub command_line: String,
    pub output_path: String,
    pub stdout_raw: Vec<u8>,
    pub stderr_raw: Vec<u8>,
    pub stdout_pending: Vec<u8>,
    pub stderr_pending: Vec<u8>,
    pub cancel_requested: bool,
}

/// What `cancel` decided.
#[derive(Debug, Clone, Copy, PartialEq, Eq, Structural)]
pub enum CancelOutcome {
    /// The slot is idle; there is nothing to cancel.
    NothingToCancel,
    /// The child already exited, or a cancel request is already pending;
    /// the next finish poll will clear the slot.
    AlreadyFinishing,
    /// The caller should terminate the child now.
    KillRequested,
}

/// The classified result of a finished job, handed to the caller for
/// logging and refreshes.
pub struct ExitOutcome {
    pub success: bool,
    pub exit_code: Option<i32>,
    pub command_line: String,
    pub output_path: String,
    pub stdout_raw: Vec<u8>,
    pub stderr_raw: Vec<u8>,
}

/// Lines and scroll position after appending each of `new` in order, with
/// the buffer's cap and scroll-shift rules applied at every step.
pub open spec fn appended_state(
    lines: Seq<Seq<char>>,
    scroll: int,
    follow: bool,
    new: Seq<Seq<char>>,
) -> (Seq<Seq<char>>, int)
    decreases new.len(),
{
    if new.len() == 0 {
        (lines, scroll)
    } else {
        let l2 = appended_lines(lines, new[0]);
        let s2 = if follow {
            l2.len() - 1
        } else if scroll >= append_dropped(lines) {
            scroll - append_dropped(lines)
        } else {
            0
        };
        appended_state(l2, s2, follow, new.skip(1))
    }
}

/// Each line of a stream prefixed with its stream name, as `name: line`.
pub open spec fn prefixed_lines(tag: StreamTag, ls: Seq<Seq<char>>) -> Seq<Seq<char>> {
    Seq::new(ls.len(), |i: int| stream_name_spec(tag) + ": "@ + ls[i])
}

/// The lines a flushed pending tail contributes: one or none.
pub open spec fn flush_lines(pending: Seq<u8>) -> Seq<Seq<char>> {
    if flush_emits(pending) {
        seq![flushed_text(pending)]
    } else {
        Seq::empty()
    }
}

/// One tool slot: at most one job, its line buffer, and a spinner frame.
pub struct JobSlot {
    pub job: Option<Job>,
    pub output: ToolOutput,
    pub spinner_frame: usize,
}

impl JobSlot {
    /// The slot's buffer is well formed and the spinner frame in range.
    pub open spec fn wf(&self) -> bool {
        self.output.wf() && self.spinner_frame < crate::SPINNER_FRAME_COUNT
    }

    /// Whether a job occupies the slot.
    pub open spec fn is_running_spec(&self) -> bool {
        self.job is Some
    }

    /// A fresh idle slot with an empty buffer.
    pub fn new() -> (r: Self)
        ensures
            r.wf(),
            !r.is_running_spec(),
            r.output.lines_view() == Seq::<Seq<char>>::empty(),
            r.spinner_frame == 0,
    {
        JobSlot { job: None, output: ToolOutput::empty(), spinner_frame: 0 }
    }

    /// Whether a job occupies the slot.
    pub fn is_running(&self) -> (r: bool)
        ensures
            r == self.is_running_spec(),
    {
        self.job.is_some()
    }

    /// Occupy the slot for a freshly spawned child: record the command
    /// line and intended output path with empty accumulators, reset the
    /// buffer to the streaming header, and reset the spinner.
    ///
    /// The caller spawns the child first and calls this only on success;
    /// a slot that is already occupied must be rejected by the caller.
    pub fn begin_job(&mut self, command_line: String, output_path: String, streaming_message: &str)
        requires
            old(self).wf(),
            !old(self).is_running_spec(),
        ensures
            final(self).wf(),
            final(self).is_running_spec(),
            final(self).job matches Some(job) && {
                &&& job.command_line@ == command_line@
                &&& job.output_path@ == output_path@
                &&& job.stdout_raw@ == Seq::<u8>::empty()
                &&& job.stderr_raw@ == Seq::<u8>::empty()
                &&& job.stdout_pending@ == Seq::<u8>::empty()
                &&& job.stderr_pending@ == Seq::<u8>::empty()
                &&& !job.cancel_requested
            },
            final(self).output.lines_view() == seq![
                "$ "@ + command_line@,
                streaming_message@,
            ],
            final(self).output.scroll_view() == 1,
            final(self).output.follows_tail(),
            final(self).spinner_frame == 0,
    {
        self.output.begin_stream(command_line.as_str(), streaming_message);
        self.spinner_frame = 0;
        self.job = Some(
            Job {
                command_line,
                output_path,
                stdout_raw: Vec::new(),
                stderr_raw: Vec::new(),
                stdout_pending: Vec::new(),
                stderr_pending: Vec::new(),
                cancel_requested: false,
            },
        );
    }

    /// Record a spawn failure: the slot stays idle and the buffer shows
    /// the command line and the error, nothing else.
    pub fn fail_spawn(&mut self, command_line: &str, error_message: &str)
        requires
            old(self).wf(),
        ensures
            final(self).wf(),
            final(self).is_running_spec() == old(self).is_running_spec(),
            final(self).job == old(self).job,
            final(self).output.lines_view() == seq!["$ "@ + command_line@, error_message@],
            final(self).output.scroll_view() == 0,
            final(self).output.follows_tail(),
            final(self).spinner_frame == old(self).spinner_frame,
    {
        self.output.replace_with_command_error(command_line, error_message);
    }

    /// Advance the spinner one frame; called once per tick while a job or
    /// probe is active.
    pub fn tick_spinner(&mut self)
        requires
            old(self).wf(),
        ensures
            final(self).wf(),
            final(self).job == old(self).job,
            final(self).output == old(self).output,
            final(self).spinner_frame == (old(self).spinner_frame + 1) % (
            crate::SPINNER_FRAME_COUNT as int),
    {
        self.spinner_frame = crate::next_spinner_frame(self.spinner_frame);
    }

    /// Route one raw chunk into the slot: the bytes are appended to the
    /// stream's transcript, completed lines are appended to the buffer
    /// prefixed with the stream name, and the unterminated tail is carried
    /// in the stream's pending buffer.
    pub fn pump_chunk(&mut self, stream: StreamTag, data: &[u8])
        requires
            old(self).wf(),
            old(self).is_running_spec(),
        ensures
            final(self).wf(),
            final(self).is_running_spec(),
            final(self).spinner_frame == old(self).spinner_frame,
            ({
                let j0 = old(self).job->Some_0;
                let j1 = final(self).job->Some_0;
                &&& j1.command_line@ == j0.command_line@
                &&& j1.output_path@ == j0.output_path@
                &&& j1.cancel_requested == j0.cancel_requested
                &&& (stream is Stdout ==> j1.stdout_raw@ == j0.stdout_raw@ + data@
                    && j1.stdout_pending@ == chunk_pending(j0.stdout_pending@, data@)
                    && j1.stderr_raw@ == j0.stderr_raw@ && j1.stderr_pending@
                    == j0.stderr_pending@)
                &&& (stream is Stderr ==> j1.stderr_raw@ == j0.stderr_raw@ + data@
                    && j1.stderr_pending@ == chunk_pending(j0.stderr_pending@, data@)
                    && j1.stdout_raw@ == j0.stdout_raw@ && j1.stdout_pending@
                    == j0.stdout_pending@)
                &&& ({
                    let emitted = chunk_lines(
                        if stream is Stdout {
                            j0.stdout_pending@
                        } else {
                            j0.stderr_pending@
                        },
                        data@,
                    );
                    let st = appended_state(
                        old(self).output.lines_view(),
                        old(self).output.scroll_view(),
                        old(self).output.follows_tail(),
                        prefixed_lines(stream, emitted),
                    );
                    final(self).output.lines_view() == st.0 && final(self).output.scroll_view()
                        == st.1
                })
            }),
            final(self).output.follows_tail() == old(self).output.follows_tail(),
            final(self).output.max_top_view() == old(self).output.max_top_view(),
    {
        let mut job = self.job.take().unwrap();
        let lines = if matches!(stream, StreamTag::Stdout) {
            consume_stream_chunk(&mut job.stdout_raw, &mut job.stdout_pending, data)
        } else {
            consume_stream_chunk(&mut job.stderr_raw, &mut job.stderr_pending, data)
        };
        self.append_stream_lines(stream, &lines);
        self.job = Some(job);
    }

    /// Append completed lines of one stream to the buffer, each prefixed
    /// with the stream name.
    fn append_stream_lines(&mut self, stream: StreamTag, lines: &Vec<String>)
        requires
            old(self).wf(),
        ensures
            final(self).wf(),
            final(self).job == old(self).job,
            final(self).spinner_frame == old(self).spinner_frame,
            ({
                let st = appended_state(
                    old(self).output.lines_view(),
                    old(self).output.scroll_view(),
                    old(self).output.follows_tail(),
                    prefixed_lines(stream, lines.deep_view()),
                );
                final(self).output.lines_view() == st.0 && final(self).output.scroll_view()
                    == st.1
            }),
            final(self).output.follows_tail() == old(self).output.follows_tail(),
            final(self).output.max_top_view() == old(self).output.max_top_view(),
    {
        let ghost all = prefixed_lines(stream, lines.deep_view());
        let ghost l0 = self.output.lines_view();
        let ghost s0 = self.output.scroll_view();
        let ghost f = self.output.follows_tail();
        let mut i: usize = 0;
        proof {
            assert(all.skip(0) =~= all);
        }
        while i < lines.len()
            invariant
                i <= lines@.len(),
                all == prefixed_lines(stream, lines.deep_view()),
                all.len() == lines@.len(),
                self.wf(),
                self.job == old(self).job,
                self.spinner_frame == old(self).spinner_frame,
                self.output.follows_tail() == f,
                self.output.max_top_view() == old(self).output.max_top_view(),
                appended_state(l0, s0, f, all) == appended_state(
                    self.output.lines_view(),
                    self.output.scroll_view(),
                    f,
                    all.skip(i as int),
                ),
            decreases lines@.len() - i,
        {
            proof {
                assert(all.skip(i as int)[0] == all[i as int]);
                assert(all[i as int] == stream_name_spec(stream) + ": "@ + lines.deep_view()[
                    i as int]);
                assert(lines.deep_view()[i as int] == lines@[i as int]@);
                assert(all.skip(i as int).skip(1) =~= all.skip(i + 1));
            }
            let name = stream_name(stream);
            self.output.append_prefixed(name, lines[i].as_str());
            i = i + 1;
        }
        proof {
            assert(all.skip(all.len() as int) =~= Seq::<Seq<char>>::empty());
        }
    }

    /// Append one diagnostic line for a failed stream read, prefixed with
    /// the stream name; the job itself keeps running.
    pub fn pump_reader_error(&mut self, stream: StreamTag, error: &str)
        requires
            old(self).wf(),
        ensures
            final(self).wf(),
            final(self).job == old(self).job,
            final(self).spinner_frame == old(self).spinner_frame,
            ({
                let line = stream_name_spec(stream) + ": "@ + ("reader error: "@ + error@);
                let st = appended_state(
                    old(self).output.lines_view(),
                    old(self).output.scroll_view(),
                    old(self).output.follows_tail(),
                    seq![line],
                );
                final(self).output.lines_view() == st.0 && final(self).output.scroll_view()
                    == st.1
            }),
            final(self).output.follows_tail() == old(self).output.follows_tail(),
            final(self).output.max_top_view() == old(self).output.max_top_view(),
    {
        proof {
            lemma_appended_state_one(
                self.output.lines_view(),
                self.output.scroll_view(),
                self.output.follows_tail(),
                stream_name_spec(stream) + ": "@ + ("reader error: "@ + error@),
            );
        }
        let mut line = String::from_str("reader error: ");
        line.append(error);
        let name = stream_name(stream);
        self.output.append_prefixed(name, line.as_str());
    }

    /// Mark a poll failure: the job is discarded without a classification
    /// and one diagnostic line is appended.
    pub fn poll_failed(&mut self, diagnostic_line: String)
        requires
            old(self).wf(),
        ensures
            final(self).wf(),
            !final(self).is_running_spec(),
            final(self).spinner_frame == old(self).spinner_frame,
            ({
                let st = appended_state(
                    old(self).output.lines_view(),
                    old(self).output.scroll_view(),
                    old(self).output.follows_tail(),
                    seq![diagnostic_line@],
                );
                final(self).output.lines_view() == st.0 && final(self).output.scroll_view()
                    == st.1
            }),
            final(self).output.follows_tail() == old(self).output.follows_tail(),
            final(self).output.max_top_view() == old(self).output.max_top_view(),
    {
        proof {
            lemma_appended_state_one(
                self.output.lines_view(),
                self.output.scroll_view(),
                self.output.follows_tail(),
                diagnostic_line@,
            );
        }
        self.output.append_line(diagnostic_line);
        self.job = None;
    }

    /// Decide a cancel request.
    ///
    /// On an idle slot nothing is cancelled and nothing changes.  On a
    /// running job whose child has already exited, or one whose kill was
    /// already requested, the job is already finishing and nothing
    /// changes.  Otherwise the kill request is recorded, one notice line
    /// is appended, and the caller is asked to terminate the child; the
    /// slot stays occupied until the finish poll observes the exit.
    pub fn cancel(&mut self, child_has_exited: bool, notice_line: String) -> (r: CancelOutcome)
        requires
            old(self).wf(),
        ensures
            final(self).wf(),
            !old(self).is_running_spec() ==> r == CancelOutcome::NothingToCancel && *final(self)
                == *old(self),
            old(self).is_running_spec() && (child_has_exited
                || old(self).job->Some_0.cancel_requested) ==> r
                == CancelOutcome::AlreadyFinishing && *final(self) == *old(self),
            old(self).is_running_spec() && !child_has_exited
                && !old(self).job->Some_0.cancel_requested ==> {
                &&& r == CancelOutcome::KillRequested
                &&& final(self).is_running_spec()
                &&& final(self).job->Some_0.cancel_requested
                &&& final(self).job->Some_0.command_line@ == old(
                    self,
                ).job->Some_0.command_line@
                &&& ({
                    let st = appended_state(
                        old(self).output.lines_view(),
                        old(self).output.scroll_view(),
                        old(self).output.follows_tail(),
                        seq![notice_line@],
                    );
                    final(self).output.lines_view() == st.0 && final(self).output.scroll_view()
                        == st.1
                })
            },
    {
        match &self.job {
            None => CancelOutcome::NothingToCancel,
            Some(job) => {
                if child_has_exited || job.cancel_requested {
                    CancelOutcome::AlreadyFinishing
                } else {
                    proof {
                        lemma_appended_state_one(
                            self.output.lines_view(),
                            self.output.scroll_view(),
                            self.output.follows_tail(),
                            notice_line@,
                        );
                    }
                    let mut job = self.job.take().unwrap();
                    job.cancel_requested = true;
                    self.job = Some(job);
                    self.output.append_line(notice_line);
                    CancelOutcome::KillRequested
                }
            },
        }
    }

    /// Finish the job after its exit status was observed: flush both
    /// pending tails (stderr first) into the buffer, free the slot, and
    /// classify the run.  The caller drains remaining channel events with
    /// `pump_chunk` before observing the status.
    pub fn finish(&mut self, exit_success: bool, exit_code: Option<i32>) -> (r: ExitOutcome)
        requires
            old(self).wf(),
            old(self).is_running_spec(),
        ensures
            final(self).wf(),
            !final(self).is_running_spec(),
            final(self).spinner_frame == old(self).spinner_frame,
            r.success == exit_success,
            r.exit_code == exit_code,
            r.command_line@ == old(self).job->Some_0.command_line@,
            r.output_path@ == old(self).job->Some_0.output_path@,
            r.stdout_raw@ == old(self).job->Some_0.stdout_raw@,
            r.stderr_raw@ == old(self).job->Some_0.stderr_raw@,
            ({
                let j0 = old(self).job->Some_0;
                let flushed = prefixed_lines(StreamTag::Stderr, flush_lines(j0.stderr_pending@))
                    + prefixed_lines(StreamTag::Stdout, flush_lines(j0.stdout_pending@));
                let st = appended_state(
                    old(self).output.lines_view(),
                    old(self).output.scroll_view(),
                    old(self).output.follows_tail(),
                    flushed,
                );
                final(self).output.lines_view() == st.0 && final(self).output.scroll_view()
                    == st.1
            }),
            final(self).output.follows_tail() == old(self).output.follows_tail(),
            final(self).output.max_top_view() == old(self).output.max_top_view(),
    {
        let mut job = self.job.take().unwrap();
        let ghost j0_stderr_pending = job.stderr_pending@;
        let ghost j0_stdout_pending = job.stdout_pending@;
        let ghost l0 = self.output.lines_view();
        let ghost s0 = self.output.scroll_view();
        let ghost f = self.output.follows_tail();
        let mut err_lines: Vec<String> = Vec::new();
        match flush_pending_line(&mut job.stderr_pending) {
            Some(line) => {
                err_lines.push(line);
            },
            None => {},
        }
        proof {
            assert(err_lines.deep_view() =~= flush_lines(j0_stderr_pending));
        }
        self.append_stream_lines(StreamTag::Stderr, &err_lines);
        let mut out_lines: Vec<String> = Vec::new();
        match flush_pending_line(&mut job.stdout_pending) {
            Some(line) => {
                out_lines.push(line);
            },
            None => {},
        }
        proof {
            assert(out_lines.deep_view() =~= flush_lines(j0_stdout_pending));
        }
        self.append_stream_lines(StreamTag::Stdout, &out_lines);
        proof {
            let pe = prefixed_lines(StreamTag::Stderr, flush_lines(j0_stderr_pending));
            let po = prefixed_lines(StreamTag::Stdout, flush_lines(j0_stdout_pending));
            lemma_appended_state_concat(l0, s0, f, pe, po);
        }
        ExitOutcome {
            success: exit_success,
            exit_code,
            command_line: job.command_line,
            output_path: job.output_path,
            stdout_raw: job.stdout_raw,
            stderr_raw: job.stderr_raw,
        }
    }
}

/// Appending a single line steps the buffer state once.
proof fn lemma_appended_state_one(lines: Seq<Seq<char>>, scroll: int, follow: bool, x: Seq<char>)
    ensures
        appended_state(lines, scroll, follow, seq![x]) == ({
            let l2 = appended_lines(lines, x);
            let s2 = if follow {
                l2.len() - 1
            } else if scroll >= append_dropped(lines) {
                scroll - append_dropped(lines)
            } else {
                0
            };
            (l2, s2)
        }),
{
    let one = seq![x];
    assert(one[0] == x);
    assert(one.skip(1) =~= Seq::<Seq<char>>::empty());
    let l2 = appended_lines(lines, x);
    let s2 = if follow {
        l2.len() - 1
    } else if scroll >= append_dropped(lines) {
        scroll - append_dropped(lines)
    } else {
        0
    };
    assert(appended_state(l2, s2, follow, Seq::<Seq<char>>::empty()) == (l2, s2));
}

/// Appending two batches of lines one after the other is appending their
/// concatenation.
proof fn lemma_appended_state_concat(
    lines: Seq<Seq<char>>,
    scroll: int,
    follow: bool,
    a: Seq<Seq<char>>,
    b: Seq<Seq<char>>,
)
    ensures
        appended_state(lines, scroll, follow, a + b) == {
            let st = appended_state(lines, scroll, follow, a);
            appended_state(st.0, st.1, follow, b)
        },
    decreases a.len(),
{
    if a.len() == 0 {
        assert(a + b =~= b);
    } else {
        assert((a + b)[0] == a[0]);
        assert((a + b).skip(1) =~= a.skip(1) + b);
        let l2 = appended_lines(lines, a[0]);
        let s2 = if follow {
            l2.len() - 1
        } else if scroll >= append_dropped(lines) {
            scroll - append_dropped(lines)
        } else {
            0
        };
        lemma_appended_state_concat(l2, s2, follow, a.skip(1), b);
    }
}

/// The decimal rendering of a possibly negative exit code.
pub open spec fn signed_dec_spec(n: int) -> Seq<char> {
    if n >= 0 {
        dec_digits(n)
    } else {
        "-"@ + dec_digits(-n)
    }
}

/// Render an exit code in decimal, with a sign when negative.
pub fn exit_code_to_dec(code: i32) -> (r: String)
    ensures
        r@ == signed_dec_spec(code as int),
{
    if code >= 0 {
        u64_to_dec(code as u64)
    } else {
        let magnitude = -(code as i64);
        let mut s = String::from_str("-");
        let d = u64_to_dec(magnitude as u64);
        s.append(d.as_str());
        s
    }
}

/// The header lines of one persisted run-log record: the framing line with
/// the Unix timestamp, the command line, the exit code (`<none>` for a
/// launch failure), an optional launch-error line, and the marker that
/// precedes the raw stderr transcript.
pub open spec fn run_log_header_spec(
    command_line: Seq<char>,
    exit_code: Option<int>,
    launch_error: Option<Seq<char>>,
    timestamp: int,
) -> Seq<Seq<char>> {
    let head = seq![
        "=== ffmpeg run @ "@ + dec_digits(timestamp) + " ==="@,
        "command: "@ + command_line,
        "exit_code: "@ + match exit_code {
            Some(c) => signed_dec_spec(c),
            None => "<none>"@,
        },
    ];
    let with_err = match launch_error {
        Some(e) => head.push("launch_error: "@ + e),
        None => head,
    };
    with_err.push("--- stderr ---"@)
}

/// Build the header lines of a run-log record.
pub fn run_log_header_lines(
    command_line: &str,
    exit_code: Option<i32>,
    launch_error: Option<&str>,
    timestamp: u64,
) -> (r: Vec<String>)
    ensures
        r.deep_view() == run_log_header_spec(
            command_line@,
            match exit_code {
                Some(c) => Some(c as int),
                None => None,
            },
            match launch_error {
                Some(e) => Some(e@),
                None => None,
            },
            timestamp as int,
        ),
{
    let mut out: Vec<String> = Vec::new();
    let mut framing = String::from_str("=== ffmpeg run @ ");
    let ts = u64_to_dec(timestamp);
    framing.append(ts.as_str());
    framing.append(" ===");
    out.push(framing);
    let mut cmd = String::from_str("command: ");
    cmd.append(command_line);
    out.push(cmd);
    let mut code_line = String::from_str("exit_code: ");
    match exit_code {
        Some(c) => {
            let d = exit_code_to_dec(c);
            code_line.append(d.as_str());
        },
        None => {
            code_line.append("<none>");
        },
    }
    out.push(code_line);
    match launch_error {
        Some(e) => {
            let mut err_line = String::from_str("launch_error: ");
            err_line.append(e);
            out.push(err_line);
        },
        None => {},
    }
    out.push(String::from_str("--- stderr ---"));
    proof {
        assert(out.deep_view() =~= run_log_header_spec(
            command_line@,
            match exit_code {
                Some(c) => Some(c as int),
                None => None::<int>,
            },
            match launch_error {
                Some(e) => Some(e@),
                None => None::<Seq<char>>,
            },
            timestamp as int,
        ));
    }
    out
}

/// The marker line written between the raw stderr and stdout transcripts.
pub fn run_log_stdout_marker() -> (r: &'static str)
    ensures
        r@ == "--- stdout ---"@,
{
    "--- stdout ---"
}

/// The lines that close one run-log record: the end framing and a blank
/// separator.
pub fn run_log_end_lines() -> (r: Vec<String>)
    ensures
        r.deep_view() == seq!["=== end ==="@, ""@],
{
    let mut out: Vec<String> = Vec::new();
    out.push(String::from_str("=== end ==="));
    out.push(String::from_str(""));
    proof {
        assert(out.deep_view() =~= seq!["=== end ==="@, ""@]);
    }
    out
}

} // verus!
