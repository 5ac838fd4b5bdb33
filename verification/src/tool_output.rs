//! Bounded, scrollable buffer of output lines for one tool panel.
//!
//! Lines are appended in arrival order and capped at
//! [`TOOL_OUTPUT_MAX_LINES`]; when the cap is exceeded the oldest lines are
//! dropped and the scroll position is shifted down by the dropped count so
//! the viewport does not jump.  While `follow_tail` is set, appending keeps
//! the bottom of the buffer visible; scrolling up turns it off and scrolling
//! back to the bottom turns it on again.
use vstd::prelude::*;

verus! {

/// Hard cap on the number of retained lines.
pub const TOOL_OUTPUT_MAX_LINES: usize = 20000;

/// Lines moved by one page-scroll step.
pub const TOOL_OUTPUT_PAGE_STEP: usize = 12;

/// The retained lines after appending `line` to `lines`: the new line goes
/// to the back, and the front is dropped down to the cap.
pub open spec fn appended_lines(lines: Seq<Seq<char>>, line: Seq<char>) -> Seq<Seq<char>> {
    let pushed = lines.push(line);
    if pushed.len() > TOOL_OUTPUT_MAX_LINES {
        pushed.skip(pushed.len() - TOOL_OUTPUT_MAX_LINES)
    } else {
        pushed
    }
}

/// How many lines appending `line` to `lines` drops from the front.
pub open spec fn append_dropped(lines: Seq<Seq<char>>) -> int {
    if lines.len() + 1 > TOOL_OUTPUT_MAX_LINES {
        lines.len() + 1 - TOOL_OUTPUT_MAX_LINES
    } else {
        0
    }
}

/// Appending never leaves more than the cap, and drops nothing until the
/// cap is reached.
pub proof fn lemma_appended_lines_capped(lines: Seq<Seq<char>>, line: Seq<char>)
    requires
        lines.len() <= TOOL_OUTPUT_MAX_LINES,
    ensures
        appended_lines(lines, line).len() <= TOOL_OUTPUT_MAX_LINES,
        appended_lines(lines, line).len() == lines.len() + 1 - append_dropped(lines),
        lines.len() < TOOL_OUTPUT_MAX_LINES ==> appended_lines(lines, line) == lines.push(line),
{
}

#[derive(Debug, Clone)]
pub struct ToolOutput {
    lines: Vec<String>,
    scroll: usize,
    last_max_scroll_top: usize,
    follow_tail: bool,
}

impl ToolOutput {
    /// The retained lines, each as its character sequence.
    pub closed spec fn lines_view(&self) -> Seq<Seq<char>> {
        self.lines.deep_view()
    }

    /// Index of the first visible line.
    pub closed spec fn scroll_view(&self) -> int {
        self.scroll as int
    }

    /// The greatest scroll-top the viewport reported during the last render.
    pub closed spec fn max_top_view(&self) -> int {
        self.last_max_scroll_top as int
    }

    /// Whether new lines keep the bottom of the buffer visible.
    pub closed spec fn follows_tail(&self) -> bool {
        self.follow_tail
    }

    /// Well-formedness: the buffer and both positions stay within the cap.
    pub open spec fn wf(&self) -> bool {
        &&& self.lines_view().len() <= TOOL_OUTPUT_MAX_LINES
        &&& self.scroll_view() <= TOOL_OUTPUT_MAX_LINES
        &&& self.max_top_view() <= TOOL_OUTPUT_MAX_LINES
    }

    /// A fresh, empty buffer that follows its tail.
    pub fn empty() -> (r: Self)
        ensures
            r.wf(),
            r.lines_view() == Seq::<Seq<char>>::empty(),
            r.scroll_view() == 0,
            r.max_top_view() == 0,
            r.follows_tail(),
    {
        let r = ToolOutput { lines: Vec::new(), scroll: 0, last_max_scroll_top: 0, follow_tail: true };
        proof {
            assert(r.lines_view() =~= Seq::<Seq<char>>::empty());
        }
        r
    }

    /// Reset to the two-line header shown while a job streams: the command
    /// line prefixed with `$ `, then a streaming placeholder.
    pub fn begin_stream(&mut self, command_line: &str, streaming_message: &str)
        requires
            old(self).wf(),
        ensures
            final(self).wf(),
            final(self).lines_view() == seq!["$ "@ + command_line@, streaming_message@],
            final(self).scroll_view() == 1,
            final(self).max_top_view() == old(self).max_top_view(),
            final(self).follows_tail(),
    {
        let mut header = String::from_str("$ ");
        header.append(command_line);
        let mut lines: Vec<String> = Vec::new();
        lines.push(header);
        lines.push(String::from_str(streaming_message));
        self.lines = lines;
        self.scroll = 1;
        self.follow_tail = true;
        proof {
            assert(self.lines_view() =~= seq!["$ "@ + command_line@, streaming_message@]);
        }
    }

    /// Reset to a two-line error display for a job that could not even be
    /// spawned: the command line prefixed with `$ `, then the error message.
    pub fn replace_with_command_error(&mut self, command_line: &str, error_message: &str)
        requires
            old(self).wf(),
        ensures
            final(self).wf(),
            final(self).lines_view() == seq!["$ "@ + command_line@, error_message@],
            final(self).scroll_view() == 0,
            final(self).max_top_view() == old(self).max_top_view(),
            final(self).follows_tail(),
    {
        let mut header = String::from_str("$ ");
        header.append(command_line);
        let mut lines: Vec<String> = Vec::new();
        lines.push(header);
        lines.push(String::from_str(error_message));
        self.lines = lines;
        self.scroll = 0;
        self.follow_tail = true;
        proof {
            assert(self.lines_view() =~= seq!["$ "@ + command_line@, error_message@]);
        }
    }

    /// Append one line, dropping the oldest lines if the cap is exceeded and
    /// shifting the scroll position by exactly the dropped count (never
    /// below zero); then, if the tail is followed, jump to the bottom.
    pub fn append_line(&mut self, line: String)
        requires
            old(self).wf(),
        ensures
            final(self).wf(),
            final(self).lines_view() == appended_lines(old(self).lines_view(), line@),
            final(self).follows_tail() == old(self).follows_tail(),
            final(self).max_top_view() == old(self).max_top_view(),
            old(self).follows_tail() ==> final(self).scroll_view() == final(self).lines_view().len() - 1,
            !old(self).follows_tail() ==> final(self).scroll_view() == if old(self).scroll_view()
                >= append_dropped(old(self).lines_view()) {
                old(self).scroll_view() - append_dropped(old(self).lines_view())
            } else {
                0
            },
    {
        let ghost lv0 = self.lines_view();
        let ghost line_v = line@;
        self.lines.push(line);
        proof {
            assert(self.lines.deep_view() =~= lv0.push(line_v));
        }
        if self.lines.len() > TOOL_OUTPUT_MAX_LINES {
            let overflow = self.lines.len() - TOOL_OUTPUT_MAX_LINES;
            let ghost before = self.lines.deep_view();
            let kept = self.lines.split_off(overflow);
            self.lines = kept;
            proof {
                assert(self.lines.deep_view() =~= before.skip(overflow as int));
            }
            self.scroll = if self.scroll >= overflow {
                self.scroll - overflow
            } else {
                0
            };
        }
        if self.follow_tail {
            self.scroll = self.lines.len() - 1;
        }
    }

    /// Append one line tagged with its stream name, as `prefix: line`.
    pub fn append_prefixed(&mut self, prefix: &str, line: &str)
        requires
            old(self).wf(),
        ensures
            final(self).wf(),
            final(self).lines_view() == appended_lines(
                old(self).lines_view(),
                prefix@ + ": "@ + line@,
            ),
            final(self).follows_tail() == old(self).follows_tail(),
            final(self).max_top_view() == old(self).max_top_view(),
            old(self).follows_tail() ==> final(self).scroll_view() == final(self).lines_view().len() - 1,
            !old(self).follows_tail() ==> final(self).scroll_view() == if old(self).scroll_view()
                >= append_dropped(old(self).lines_view()) {
                old(self).scroll_view() - append_dropped(old(self).lines_view())
            } else {
                0
            },
    {
        let mut tagged = String::from_str(prefix);
        tagged.append(": ");
        tagged.append(line);
        self.append_line(tagged);
    }

    /// Move one line down, stopping at the last reported scroll-top; landing
    /// on it re-enables tail following.
    pub fn scroll_down(&mut self)
        requires
            old(self).wf(),
        ensures
            final(self).wf(),
            final(self).lines_view() == old(self).lines_view(),
            final(self).max_top_view() == old(self).max_top_view(),
            final(self).scroll_view() == if old(self).scroll_view() + 1 <= old(self).max_top_view() {
                old(self).scroll_view() + 1
            } else {
                old(self).max_top_view()
            },
            final(self).follows_tail() == (final(self).scroll_view() >= old(self).max_top_view()
                || old(self).follows_tail()),
    {
        let max_scroll = self.last_max_scroll_top;
        let next = if self.scroll + 1 <= max_scroll {
            self.scroll + 1
        } else {
            max_scroll
        };
        self.scroll = next;
        if next >= max_scroll {
            self.follow_tail = true;
        }
    }

    /// Move one line up and stop following the tail.
    pub fn scroll_up(&mut self)
        requires
            old(self).wf(),
        ensures
            final(self).wf(),
            final(self).lines_view() == old(self).lines_view(),
            final(self).max_top_view() == old(self).max_top_view(),
            final(self).scroll_view() == if old(self).scroll_view() >= 1 {
                old(self).scroll_view() - 1
            } else {
                0
            },
            !final(self).follows_tail(),
    {
        self.scroll = if self.scroll >= 1 {
            self.scroll - 1
        } else {
            0
        };
        self.follow_tail = false;
    }

    /// Move one page down, stopping at the last reported scroll-top; landing
    /// on it re-enables tail following.
    pub fn page_down(&mut self)
        requires
            old(self).wf(),
        ensures
            final(self).wf(),
            final(self).lines_view() == old(self).lines_view(),
            final(self).max_top_view() == old(self).max_top_view(),
            final(self).scroll_view() == if old(self).scroll_view() + TOOL_OUTPUT_PAGE_STEP <= old(self).max_top_view() {
                old(self).scroll_view() + TOOL_OUTPUT_PAGE_STEP
            } else {
                old(self).max_top_view()
            },
            final(self).follows_tail() == (final(self).scroll_view() >= old(self).max_top_view()
                || old(self).follows_tail()),
    {
        let max_scroll = self.last_max_scroll_top;
        let next = if self.scroll + TOOL_OUTPUT_PAGE_STEP <= max_scroll {
            self.scroll + TOOL_OUTPUT_PAGE_STEP
        } else {
            max_scroll
        };
        self.scroll = next;
        if next >= max_scroll {
            self.follow_tail = true;
        }
    }

    /// Move one page up and stop following the tail.
    pub fn page_up(&mut self)
        requires
            old(self).wf(),
        ensures
            final(self).wf(),
            final(self).lines_view() == old(self).lines_view(),
            final(self).max_top_view() == old(self).max_top_view(),
            final(self).scroll_view() == if old(self).scroll_view() >= TOOL_OUTPUT_PAGE_STEP {
                old(self).scroll_view() - TOOL_OUTPUT_PAGE_STEP
            } else {
                0
            },
            !final(self).follows_tail(),
    {
        self.scroll = if self.scroll >= TOOL_OUTPUT_PAGE_STEP {
            self.scroll - TOOL_OUTPUT_PAGE_STEP
        } else {
            0
        };
        self.follow_tail = false;
    }

    /// The retained lines, oldest first.
    pub fn lines(&self) -> (r: &Vec<String>)
        ensures
            r.deep_view() == self.lines_view(),
    {
        &self.lines
    }

    /// The current scroll position.
    pub fn scroll(&self) -> (r: usize)
        ensures
            r == self.scroll_view(),
    {
        self.scroll
    }

    /// Clamp the scroll position to what a viewport of the given height can
    /// show, remembering the greatest valid scroll-top for later scrolling.
    pub fn clamped_scroll_for_viewport(&mut self, visible_line_count: usize) -> (r: usize)
        requires
            old(self).wf(),
        ensures
            final(self).wf(),
            final(self).lines_view() == old(self).lines_view(),
            final(self).follows_tail() == old(self).follows_tail(),
            final(self).max_top_view() == if old(self).lines_view().len() >= if visible_line_count
                >= 1 {
                visible_line_count as int
            } else {
                1
            } {
                old(self).lines_view().len() - if visible_line_count >= 1 {
                    visible_line_count as int
                } else {
                    1
                }
            } else {
                0
            },
            final(self).scroll_view() == if old(self).scroll_view() <= final(self).max_top_view() {
                old(self).scroll_view()
            } else {
                final(self).max_top_view()
            },
            r == final(self).scroll_view(),
    {
        let visible = if visible_line_count >= 1 {
            visible_line_count
        } else {
            1
        };
        let len = self.lines.len();
        let max_scroll_top = if len >= visible {
            len - visible
        } else {
            0
        };
        self.last_max_scroll_top = max_scroll_top;
        let clamped = if self.scroll <= max_scroll_top {
            self.scroll
        } else {
            max_scroll_top
        };
        self.scroll = clamped;
        clamped
    }
}

} // verus!
