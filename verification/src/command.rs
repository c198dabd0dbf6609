//! Command history from OSC 133 shell integration: the marks A (prompt),
//! B (command line), C (command runs) and D (command finished) build one
//! record per command, kept in a history of bounded length.

use vstd::prelude::*;
use std::collections::VecDeque;
use crate::print::Cell;
use crate::text::{string_of_range, trim, trim_range};

verus! {

/// One shell command and where its output lies in the scrollback.
#[derive(Debug)]
pub struct CommandRecord {
    /// Increasing number of the command within the session.
    pub id: u64,
    /// The command line the user entered.
    pub command_text: String,
    /// The working directory when the prompt appeared.
    pub cwd: String,
    /// When the command started, in milliseconds since the epoch.
    pub timestamp_ms: i64,
    /// How long it ran (known when D arrived).
    pub duration_ms: Option<u64>,
    /// Its exit code (when D carried one).
    pub exit_code: Option<i32>,
    /// Absolute line where its output begins.
    pub scrollback_line_start: usize,
    /// Absolute line where its output ends.
    pub scrollback_line_end: Option<usize>,
    /// Absolute line of its prompt.
    pub prompt_line: usize,
}

/// A command record as plain values.
pub struct RecordView {
    pub id: u64,
    pub command_text: Seq<char>,
    pub cwd: Seq<char>,
    pub timestamp_ms: i64,
    pub duration_ms: Option<u64>,
    pub exit_code: Option<i32>,
    pub scrollback_line_start: usize,
    pub scrollback_line_end: Option<usize>,
    pub prompt_line: usize,
}

impl View for CommandRecord {
    type V = RecordView;

    open spec fn view(&self) -> RecordView {
        RecordView {
            id: self.id,
            command_text: self.command_text@,
            cwd: self.cwd@,
            timestamp_ms: self.timestamp_ms,
            duration_ms: self.duration_ms,
            exit_code: self.exit_code,
            scrollback_line_start: self.scrollback_line_start,
            scrollback_line_end: self.scrollback_line_end,
            prompt_line: self.prompt_line,
        }
    }
}

/// What is known of the command in progress.
#[derive(Debug)]
pub struct PendingCommand {
    pub prompt_abs_line: usize,
    pub command_start_abs_line: usize,
    pub command_start_col: usize,
    pub cwd: String,
    pub started_at_ms: Option<i64>,
    pub output_start_abs_line: Option<usize>,
}

/// A command in progress as plain values.
pub struct PendingView {
    pub prompt_abs_line: usize,
    pub command_start_abs_line: usize,
    pub command_start_col: usize,
    pub cwd: Seq<char>,
    pub started_at_ms: Option<i64>,
    pub output_start_abs_line: Option<usize>,
}

impl View for PendingCommand {
    type V = PendingView;

    open spec fn view(&self) -> PendingView {
        PendingView {
            prompt_abs_line: self.prompt_abs_line,
            command_start_abs_line: self.command_start_abs_line,
            command_start_col: self.command_start_col,
            cwd: self.cwd@,
            started_at_ms: self.started_at_ms,
            output_start_abs_line: self.output_start_abs_line,
        }
    }
}

/// The command tracker as plain values.
pub struct TrackerState {
    pub history: Seq<RecordView>,
    pub pending: Option<PendingView>,
    pub pending_text: Option<Seq<char>>,
    pub next_id: u64,
    pub enabled: bool,
    pub max: usize,
}

/// Builds command records from OSC 133 marks.
pub struct CommandTracker {
    history: VecDeque<CommandRecord>,
    pending: Option<PendingCommand>,
    pending_text: Option<String>,
    next_id: u64,
    enabled: bool,
    max: usize,
}

/// The view of an optional pending command.
pub open spec fn pending_view(p: Option<PendingCommand>) -> Option<PendingView> {
    match p {
        Some(c) => Some(c@),
        None => None,
    }
}

/// The view of an optional string.
pub open spec fn text_view(t: Option<String>) -> Option<Seq<char>> {
    match t {
        Some(s) => Some(s@),
        None => None,
    }
}

impl View for CommandTracker {
    type V = TrackerState;

    closed spec fn view(&self) -> TrackerState {
        TrackerState {
            history: self.history@.map_values(|r: CommandRecord| r@),
            pending: pending_view(self.pending),
            pending_text: text_view(self.pending_text),
            next_id: self.next_id,
            enabled: self.enabled,
            max: self.max,
        }
    }
}

/// The history after adding `r`: the oldest records give way so that at
/// most `max` remain.
pub open spec fn pushed(h: Seq<RecordView>, r: RecordView, max: nat) -> Seq<RecordView> {
    let h2 = h.push(r);
    if h2.len() > max {
        h2.skip(h2.len() - max)
    } else {
        h2
    }
}

/// The record a finished command leaves.
pub open spec fn finished_record(
    id: u64,
    text: Option<Seq<char>>,
    p: PendingView,
    duration_ms: Option<u64>,
    exit_code: Option<i32>,
    end_line: usize,
) -> RecordView {
    RecordView {
        id,
        command_text: match text {
            Some(t) => t,
            None => Seq::empty(),
        },
        cwd: p.cwd,
        timestamp_ms: p.started_at_ms->0,
        duration_ms,
        exit_code,
        scrollback_line_start: p.output_start_abs_line->0,
        scrollback_line_end: Some(end_line),
        prompt_line: p.prompt_abs_line,
    }
}

/// A pending command that has run (C was seen) can become a record.
pub open spec fn has_run(p: PendingView) -> bool {
    p.started_at_ms is Some && p.output_start_abs_line is Some
}

/// The state after the pending command ends at `end_line` with the given
/// duration and exit code: a command that has run becomes the next record
/// (taking the stored command text); the pending command goes either way.
pub open spec fn closed_pending(
    s: TrackerState,
    end_line: usize,
    duration_ms: Option<u64>,
    exit_code: Option<i32>,
) -> TrackerState {
    match s.pending {
        None => s,
        Some(p) => if has_run(p) {
            TrackerState {
                history: pushed(
                    s.history,
                    finished_record(s.next_id, s.pending_text, p, duration_ms, exit_code, end_line),
                    s.max as nat,
                ),
                pending: None,
                pending_text: None,
                next_id: (s.next_id + 1) as u64,
                ..s
            }
        } else {
            TrackerState { pending: None, ..s }
        },
    }
}

/// Whether ending the pending command now makes a record: it has run.
pub open spec fn may_record(s: TrackerState) -> bool {
    s.pending matches Some(p) && has_run(p)
}

/// How long a command started at `start` ran when it finished at `now`
/// (0 if the clock went back).
pub open spec fn elapsed_ms(start: i64, now: i64) -> u64 {
    if now > start {
        (now - start) as u64
    } else {
        0
    }
}

/// The state after a prompt starts (A) at absolute line `line` in `cwd`:
/// a command still pending is recorded as ended there, and a new one
/// begins.
pub open spec fn after_prompt(s: TrackerState, line: usize, cwd: Seq<char>) -> TrackerState {
    if !s.enabled {
        s
    } else {
        TrackerState {
            pending: Some(
                PendingView {
                    prompt_abs_line: line,
                    command_start_abs_line: 0,
                    command_start_col: 0,
                    cwd,
                    started_at_ms: None,
                    output_start_abs_line: None,
                },
            ),
            ..closed_pending(s, line, None, None)
        }
    }
}

/// The state after the command line starts (B) at `line`, `col`.
pub open spec fn after_command_start(s: TrackerState, line: usize, col: usize) -> TrackerState {
    if s.enabled && s.pending is Some {
        TrackerState {
            pending: Some(
                PendingView {
                    command_start_abs_line: line,
                    command_start_col: col,
                    ..s.pending->0
                },
            ),
            ..s
        }
    } else {
        s
    }
}

/// The state after the command runs (C) at `line` and time `now`: the
/// command text (`text`, as read from the screen) is stored, empty when no
/// command is pending.
pub open spec fn after_executed(s: TrackerState, text: Seq<char>, line: usize, now: i64) -> TrackerState {
    if !s.enabled {
        s
    } else {
        TrackerState {
            pending: match s.pending {
                Some(p) => Some(
                    PendingView { started_at_ms: Some(now), output_start_abs_line: Some(line), ..p },
                ),
                None => None,
            },
            pending_text: Some(
                if s.pending is Some {
                    text
                } else {
                    Seq::empty()
                },
            ),
            ..s
        }
    }
}

/// The state after the command finishes (D) at `line` and time `now`,
/// with the exit code the mark carried.
pub open spec fn after_finished(
    s: TrackerState,
    exit_code: Option<i32>,
    line: usize,
    now: i64,
) -> TrackerState {
    if !s.enabled {
        s
    } else {
        match s.pending {
            Some(p) => if has_run(p) {
                closed_pending(s, line, Some(elapsed_ms(p.started_at_ms->0, now)), exit_code)
            } else {
                closed_pending(s, line, None, None)
            },
            None => s,
        }
    }
}

impl CommandTracker {
    /// An empty history, tracking when `enabled`, keeping at most `max`
    /// records.
    pub fn new(enabled: bool, max: usize) -> (t: Self)
        ensures
            t@.history == Seq::<RecordView>::empty(),
            t@.pending is None,
            t@.pending_text is None,
            t@.next_id == 0,
            t@.enabled == enabled,
            t@.max == max,
    {
        let t = CommandTracker {
            history: VecDeque::new(),
            pending: None,
            pending_text: None,
            next_id: 0,
            enabled,
            max,
        };
        proof {
            assert(t@.history =~= Seq::<RecordView>::empty());
        }
        t
    }

    /// The records, oldest first.
    pub fn history(&self) -> (h: &VecDeque<CommandRecord>)
        ensures
            h@.map_values(|r: CommandRecord| r@) == self@.history,
    {
        &self.history
    }

    /// The number of the next record.
    pub fn next_command_id(&self) -> (id: u64)
        ensures
            id == self@.next_id,
    {
        self.next_id
    }

    /// Where the command line of the pending command starts (absolute line
    /// and column): what the screen is read from when the command runs.
    pub fn pending_input_start(&self) -> (r: Option<(usize, usize)>)
        ensures
            r == match self@.pending {
                Some(p) => Some((p.command_start_abs_line, p.command_start_col)),
                None => None,
            },
    {
        match &self.pending {
            Some(p) => Some((p.command_start_abs_line, p.command_start_col)),
            None => None,
        }
    }

    /// Enable or disable command history tracking.
    pub fn set_command_history_enabled(&mut self, enabled: bool)
        ensures
            final(self)@ == (TrackerState { enabled, ..old(self)@ }),
    {
        self.enabled = enabled;
        proof {
            assert(self@.history =~= old(self)@.history);
        }
    }

    /// Set the maximum history length (it applies from the next record).
    pub fn set_max_command_history(&mut self, max: usize)
        ensures
            final(self)@ == (TrackerState { max, ..old(self)@ }),
    {
        self.max = max;
        proof {
            assert(self@.history =~= old(self)@.history);
        }
    }

    /// Add a record, dropping the oldest ones beyond the maximum.
    fn push_command_record(&mut self, record: CommandRecord)
        ensures
            final(self)@ == (TrackerState {
                history: pushed(old(self)@.history, record@, old(self)@.max as nat),
                ..old(self)@
            }),
    {
        let ghost h0 = old(self)@.history;
        self.history.push_back(record);
        let ghost full = h0.push(record@);
        proof {
            assert(self.history@.map_values(|r: CommandRecord| r@) =~= full);
        }
        while self.history.len() > self.max
            invariant
                self.max == old(self).max,
                self.pending == old(self).pending,
                self.pending_text == old(self).pending_text,
                self.next_id == old(self).next_id,
                self.enabled == old(self).enabled,
                full.len() >= self.history@.len(),
                full.len() > self.max ==> self.history@.len() >= self.max,
                full.len() <= self.max ==> self.history@.len() == full.len(),
                self.history@.map_values(|r: CommandRecord| r@) =~= full.skip(
                    full.len() - self.history@.len(),
                ),
            decreases self.history@.len(),
        {
            let ghost before = self.history@;
            let ghost mb = before.map_values(|r: CommandRecord| r@);
            let _ = self.history.pop_front();
            proof {
                assert(self.history@ =~= before.drop_first());
                let m = self.history@.map_values(|r: CommandRecord| r@);
                let target = full.skip(full.len() - self.history@.len());
                assert forall|k: int| 0 <= k < m.len() implies m[k] == target[k] by {
                    assert(m[k] == self.history@[k]@);
                    assert(self.history@[k] == before[k + 1]);
                    assert(mb[k + 1] == before[k + 1]@);
                }
                assert(m =~= target);
            }
        }
        proof {
            if full.len() <= self.max {
                assert(full.skip(0) =~= full);
            }
            assert(self@.history =~= pushed(h0, record@, old(self)@.max as nat));
        }
    }

    /// End the pending command at `end_line` (with the given duration and
    /// exit code when it has run).
    fn close_pending(&mut self, end_line: usize, duration_ms: Option<u64>, exit_code: Option<i32>)
        requires
            may_record(old(self)@) ==> old(self)@.next_id < u64::MAX,
        ensures
            final(self)@ == closed_pending(old(self)@, end_line, duration_ms, exit_code),
    {
        match self.pending.take() {
            None => {},
            Some(pending) => {
                match (pending.started_at_ms, pending.output_start_abs_line) {
                    (Some(started), Some(output_start)) => {
                        let id = self.next_id;
                        self.next_id = self.next_id + 1;
                        let text = match self.pending_text.take() {
                            Some(t) => t,
                            None => String::new(),
                        };
                        let record = CommandRecord {
                            id,
                            command_text: text,
                            cwd: pending.cwd,
                            timestamp_ms: started,
                            duration_ms,
                            exit_code,
                            scrollback_line_start: output_start,
                            scrollback_line_end: Some(end_line),
                            prompt_line: pending.prompt_abs_line,
                        };
                        self.push_command_record(record);
                    },
                    _ => {},
                }
            },
        }
        proof {
            assert(self@.history =~= closed_pending(old(self)@, end_line, duration_ms, exit_code).history);
        }
    }

    /// Finalize a pending command that saw no D, when the next prompt
    /// appears at `current_abs_line`.
    pub fn finalize_pending_command(&mut self, current_abs_line: usize)
        requires
            may_record(old(self)@) ==> old(self)@.next_id < u64::MAX,
        ensures
            final(self)@ == closed_pending(old(self)@, current_abs_line, None, None),
    {
        self.close_pending(current_abs_line, None, None);
    }

    /// OSC 133 A: a prompt starts at absolute line `line` in `cwd`.
    pub fn prompt_start(&mut self, line: usize, cwd: &str)
        requires
            old(self)@.enabled && may_record(old(self)@) ==> old(self)@.next_id < u64::MAX,
        ensures
            final(self)@ == after_prompt(old(self)@, line, cwd@),
    {
        if !self.enabled {
            return;
        }
        self.finalize_pending_command(line);
        self.pending = Some(
            PendingCommand {
                prompt_abs_line: line,
                command_start_abs_line: 0,
                command_start_col: 0,
                cwd: String::from_str(cwd),
                started_at_ms: None,
                output_start_abs_line: None,
            },
        );
        proof {
            assert(self@.history =~= after_prompt(old(self)@, line, cwd@).history);
        }
    }

    /// OSC 133 B: the command line starts at absolute line `line`, column
    /// `col`.
    pub fn command_start(&mut self, line: usize, col: usize)
        ensures
            final(self)@ == after_command_start(old(self)@, line, col),
    {
        if self.enabled {
            if let Some(p) = &mut self.pending {
                p.command_start_abs_line = line;
                p.command_start_col = col;
            }
        }
        proof {
            assert(self@.history =~= after_command_start(old(self)@, line, col).history);
        }
    }

    /// OSC 133 C: the command runs, its output starting at absolute line
    /// `line`, at time `now_ms`; `text` is the command line read from the
    /// screen (from `pending_input_start` to the cursor).
    pub fn command_executed(&mut self, text: String, line: usize, now_ms: i64)
        ensures
            final(self)@ == after_executed(old(self)@, text@, line, now_ms),
    {
        if !self.enabled {
            return;
        }
        let stored = if self.pending.is_some() {
            text
        } else {
            String::new()
        };
        if let Some(p) = &mut self.pending {
            p.started_at_ms = Some(now_ms);
            p.output_start_abs_line = Some(line);
        }
        self.pending_text = Some(stored);
        proof {
            assert(self@.history =~= after_executed(old(self)@, text@, line, now_ms).history);
        }
    }

    /// OSC 133 D: the command finished at absolute line `line` and time
    /// `now_ms`, with the exit code the mark carried.
    pub fn command_finished(&mut self, exit_code: Option<i32>, line: usize, now_ms: i64)
        requires
            old(self)@.enabled && may_record(old(self)@) ==> old(self)@.next_id < u64::MAX,
        ensures
            final(self)@ == after_finished(old(self)@, exit_code, line, now_ms),
    {
        if !self.enabled {
            return;
        }
        let duration = match &self.pending {
            Some(p) => match (p.started_at_ms, p.output_start_abs_line) {
                (Some(started), Some(_)) => Some(
                    if now_ms > started {
                        ((now_ms as i128) - (started as i128)) as u64
                    } else {
                        0
                    },
                ),
                _ => None,
            },
            None => None,
        };
        let code = if duration.is_some() {
            exit_code
        } else {
            None
        };
        self.close_pending(line, duration, code);
    }

    /// The prompt lines of the records, oldest first (what the jumps
    /// between commands search).
    pub fn prompt_lines(&self) -> (v: Vec<usize>)
        ensures
            v@ == self@.history.map_values(|r: RecordView| r.prompt_line),
    {
        let mut v: Vec<usize> = Vec::new();
        let n = self.history.len();
        let mut i: usize = 0;
        while i < n
            invariant
                n == self.history@.len(),
                i <= n,
                v@ == self@.history.take(i as int).map_values(|r: RecordView| r.prompt_line),
            decreases n - i,
        {
            v.push(self.history[i].prompt_line);
            proof {
                assert(self@.history[i as int] == self.history@[i as int]@);
                assert(self@.history.take(i + 1).map_values(|r: RecordView| r.prompt_line)
                    =~= v@);
            }
            i = i + 1;
        }
        proof {
            assert(self@.history.take(n as int) =~= self@.history);
        }
        v
    }
}

/// The history never holds more than the maximum once a record is added,
/// and the newest record is the one just added (when the maximum allows
/// any).
pub proof fn lemma_pushed_bounded(h: Seq<RecordView>, r: RecordView, max: nat)
    requires
        h.len() <= max,
    ensures
        pushed(h, r, max).len() <= max,
        max > 0 ==> pushed(h, r, max).last() == r,
        max > 0 ==> pushed(h, r, max).drop_last() == (if h.len() < max {
            h
        } else {
            h.drop_first()
        }),
{
    if max > 0 {
        let h2 = h.push(r);
        if h2.len() > max {
            assert(pushed(h, r, max).drop_last() =~= h.drop_first());
        } else {
            assert(pushed(h, r, max).drop_last() =~= h);
        }
    }
}

/// A new limit leaves the history as it is, however long; each record
/// added afterwards goes at the back, and the oldest records give way until
/// at most the new limit remain.
pub proof fn lemma_limit_applies_on_next_record(s: TrackerState, max: usize, r: RecordView)
    ensures
        (TrackerState { max, ..s }).history == s.history,
        pushed((TrackerState { max, ..s }).history, r, max as nat).len() == if s.history.len() + 1
            > max {
            max as int
        } else {
            s.history.len() + 1int
        },
        max > 0 ==> pushed(s.history, r, max as nat).last() == r,
        forall|k: int|
            0 <= k < pushed(s.history, r, max as nat).len() ==> #[trigger] pushed(
                s.history,
                r,
                max as nat,
            )[k] == s.history.push(r)[s.history.len() + 1 - pushed(s.history, r, max as nat).len()
                + k],
{
}

/// A command that went through A, B, C and D leaves exactly one record:
/// its id is the next number, its text the one read at C, its output runs
/// from the line of C to the line of D, and its duration is the time
/// between C and D.
pub proof fn lemma_full_cycle_records(
    s: TrackerState,
    prompt_line: usize,
    cwd: Seq<char>,
    input_line: usize,
    input_col: usize,
    text: Seq<char>,
    output_line: usize,
    started: i64,
    exit_code: Option<i32>,
    end_line: usize,
    finished: i64,
)
    requires
        s.enabled,
        s.pending is None,
        s.max > 0,
        s.history.len() < s.max,
        s.next_id < u64::MAX,
    ensures
        ({
            let s1 = after_prompt(s, prompt_line, cwd);
            let s2 = after_command_start(s1, input_line, input_col);
            let s3 = after_executed(s2, text, output_line, started);
            let s4 = after_finished(s3, exit_code, end_line, finished);
            &&& s4.history == s.history.push(
                RecordView {
                    id: s.next_id,
                    command_text: text,
                    cwd,
                    timestamp_ms: started,
                    duration_ms: Some(elapsed_ms(started, finished)),
                    exit_code,
                    scrollback_line_start: output_line,
                    scrollback_line_end: Some(end_line),
                    prompt_line,
                },
            )
            &&& s4.pending is None
            &&& s4.pending_text is None
            &&& s4.next_id == s.next_id + 1
        }),
{
}

/// The characters of the cells `from..to` of a row, continuation cells
/// left out.
pub open spec fn cell_chars(row: Seq<Cell>, from: int, to: int) -> Seq<char>
    decreases to - from,
{
    if to <= from {
        Seq::empty()
    } else if row[to - 1].width > 0 {
        cell_chars(row, from, to - 1).push(row[to - 1].c)
    } else {
        cell_chars(row, from, to - 1)
    }
}

/// The smaller of two integers.
pub open spec fn min_int(a: int, b: int) -> int {
    if a < b {
        a
    } else {
        b
    }
}

/// The text of screen rows `first..upto` of a command line that starts at
/// (`first`, `start_col`) and ends at the cursor (`end_row`, `end_col`):
/// each row from its first column (or `start_col` on the first) to its end
/// (or `end_col` on the cursor row), rows other than the cursor row ending
/// with a newline.
pub open spec fn rows_text(
    grid: Seq<Seq<Cell>>,
    cols: int,
    first: int,
    start_col: int,
    end_row: int,
    end_col: int,
    upto: int,
) -> Seq<char>
    decreases upto - first,
{
    if upto <= first {
        Seq::empty()
    } else {
        let row = upto - 1;
        let from = if row == first {
            start_col
        } else {
            0
        };
        let to = min_int(
            if row == end_row {
                end_col
            } else {
                cols
            },
            cols,
        );
        rows_text(grid, cols, first, start_col, end_row, end_col, row) + cell_chars(
            grid[row],
            from,
            to,
        ) + if row != end_row {
            seq!['\n']
        } else {
            Seq::empty()
        }
    }
}

/// The command line between a start position (absolute line `start_abs`,
/// column `start_col`) and the cursor, trimmed; empty when the start has
/// scrolled off or lies below the screen.
pub open spec fn command_text(
    grid: Seq<Seq<Cell>>,
    cols: int,
    total_scrolled_lines: int,
    start_abs: int,
    start_col: int,
    cursor_col: int,
    cursor_row: int,
) -> Seq<char> {
    if start_abs < total_scrolled_lines {
        Seq::empty()
    } else {
        let first = start_abs - total_scrolled_lines;
        if first >= grid.len() {
            Seq::empty()
        } else {
            let last = min_int(cursor_row, grid.len() - 1);
            trim(rows_text(grid, cols, first, start_col, cursor_row, cursor_col, last + 1))
        }
    }
}

/// The rows of the screen as sequences of cells.
pub open spec fn grid_view(grid: Seq<Vec<Cell>>) -> Seq<Seq<Cell>> {
    grid.map_values(|r: Vec<Cell>| r@)
}

/// Append the characters of cells `from..to` of `row`.
fn push_cell_chars(out: &mut Vec<char>, row: &Vec<Cell>, from: usize, to: usize)
    requires
        to <= row@.len(),
    ensures
        final(out)@ == old(out)@ + cell_chars(row@, from as int, to as int),
{
    let mut i = from;
    proof {
        assert(old(out)@ + cell_chars(row@, from as int, from as int) =~= old(out)@);
    }
    if from >= to {
        return;
    }
    while i < to
        invariant
            from <= i <= to <= row@.len(),
            out@ == old(out)@ + cell_chars(row@, from as int, i as int),
        decreases to - i,
    {
        if row[i].width > 0 {
            out.push(row[i].c);
        }
        proof {
            assert(out@ =~= old(out)@ + cell_chars(row@, from as int, i + 1));
        }
        i = i + 1;
    }
}

/// Read the command line from the screen: from the start position to the
/// cursor, trimmed (empty when the start has scrolled off).
pub fn extract_command_text(
    grid: &Vec<Vec<Cell>>,
    cols: usize,
    total_scrolled_lines: usize,
    start_abs_line: usize,
    start_col: usize,
    cursor_col: usize,
    cursor_row: usize,
) -> (r: String)
    requires
        forall|k: int| 0 <= k < grid@.len() ==> #[trigger] grid@[k]@.len() == cols,
    ensures
        r@ == command_text(
            grid_view(grid@),
            cols as int,
            total_scrolled_lines as int,
            start_abs_line as int,
            start_col as int,
            cursor_col as int,
            cursor_row as int,
        ),
{
    let ghost g = grid_view(grid@);
    if start_abs_line < total_scrolled_lines {
        return String::new();
    }
    let first = start_abs_line - total_scrolled_lines;
    let rows = grid.len();
    if first >= rows {
        return String::new();
    }
    let last = if cursor_row < rows - 1 {
        cursor_row
    } else {
        rows - 1
    };
    let mut text: Vec<char> = Vec::new();
    let upto = last + 1;
    let mut row = first;
    while row < upto
        invariant
            first <= row,
            row <= upto || row == first,
            upto == last + 1,
            last < rows == grid@.len(),
            g == grid_view(grid@),
            forall|k: int| 0 <= k < grid@.len() ==> #[trigger] grid@[k]@.len() == cols,
            text@ == rows_text(
                g,
                cols as int,
                first as int,
                start_col as int,
                cursor_row as int,
                cursor_col as int,
                row as int,
            ),
        decreases upto - row,
    {
        let from = if row == first {
            start_col
        } else {
            0
        };
        let end = if row == cursor_row {
            cursor_col
        } else {
            cols
        };
        let to = if end < cols {
            end
        } else {
            cols
        };
        let ghost before = text@;
        proof {
            assert(g[row as int] == grid@[row as int]@);
        }
        push_cell_chars(&mut text, &grid[row], from, to);
        if row != cursor_row {
            text.push('\n');
        }
        proof {
            assert(text@ =~= rows_text(
                g,
                cols as int,
                first as int,
                start_col as int,
                cursor_row as int,
                cursor_col as int,
                row + 1,
            ));
        }
        row = row + 1;
    }
    proof {
        assert(text@ == rows_text(
            g,
            cols as int,
            first as int,
            start_col as int,
            cursor_row as int,
            cursor_col as int,
            upto as int,
        ));
    }
    let n = text.len();
    let (a, b) = trim_range(&text, 0, n);
    proof {
        assert(text@.subrange(0, n as int) =~= text@);
    }
    string_of_range(&text, a, b)
}

/// An OSC 133 mark, as plain values.
pub enum ShellEvent {
    /// A: a prompt at this line in this directory.
    Prompt(usize, Seq<char>),
    /// B: the command line starts at this line and column.
    CommandStart(usize, usize),
    /// C: the command runs (text read from the screen, line, time).
    Executed(Seq<char>, usize, i64),
    /// D: the command finished (exit code, line, time).
    Finished(Option<i32>, usize, i64),
}

/// The tracker after the marks, in order.
pub open spec fn after_events(s: TrackerState, evs: Seq<ShellEvent>) -> TrackerState
    decreases evs.len(),
{
    if evs.len() == 0 {
        s
    } else {
        let prev = after_events(s, evs.drop_last());
        match evs.last() {
            ShellEvent::Prompt(line, cwd) => after_prompt(prev, line, cwd),
            ShellEvent::CommandStart(line, col) => after_command_start(prev, line, col),
            ShellEvent::Executed(text, line, now) => after_executed(prev, text, line, now),
            ShellEvent::Finished(code, line, now) => after_finished(prev, code, line, now),
        }
    }
}

/// While tracking is disabled, no mark builds or adds a record: the
/// tracker, its history included, stays as it was, whatever marks come
/// and however full the id counter is.
pub proof fn lemma_disabled_history_unchanged(s: TrackerState, evs: Seq<ShellEvent>)
    requires
        !s.enabled,
    ensures
        after_events(s, evs) == s,
        after_events(s, evs).history == s.history,
    decreases evs.len(),
{
    if evs.len() > 0 {
        lemma_disabled_history_unchanged(s, evs.drop_last());
    }
}

/// A command's duration is the time from C to D, and 0 when the clock
/// went back.
pub proof fn lemma_elapsed_is_c_to_d(start: i64, now: i64)
    ensures
        now >= start ==> elapsed_ms(start, now) == now - start,
        now < start ==> elapsed_ms(start, now) == 0,
{
}

/// The characters of a run of narrow cells are those cells' characters,
/// in order.
pub proof fn lemma_narrow_cells_read(row: Seq<Cell>, from: int, to: int)
    requires
        0 <= from <= to <= row.len(),
        forall|k: int| from <= k < to ==> #[trigger] row[k].width == 1,
    ensures
        cell_chars(row, from, to) == Seq::new((to - from) as nat, |k: int| row[from + k].c),
    decreases to - from,
{
    if from < to {
        lemma_narrow_cells_read(row, from, to - 1);
        assert(cell_chars(row, from, to) =~= Seq::new((to - from) as nat, |k: int| row[from + k].c));
    } else {
        assert(cell_chars(row, from, to) =~= Seq::new((to - from) as nat, |k: int| row[from + k].c));
    }
}

/// A wide character is read once: its continuation cell adds nothing.
pub proof fn lemma_wide_cell_read_once(row: Seq<Cell>, from: int, k: int)
    requires
        0 <= from <= k,
        k + 1 < row.len(),
        row[k].width == 2,
        row[k + 1].width == 0,
    ensures
        cell_chars(row, from, k + 2) == cell_chars(row, from, k).push(row[k].c),
{
    assert(cell_chars(row, from, k + 1) == cell_chars(row, from, k).push(row[k].c));
    assert(cell_chars(row, from, k + 2) == cell_chars(row, from, k + 1));
}

/// A command line on one row is read from where its input started to the
/// cursor (trimmed); on two rows, the first row from the start column to
/// its end, a newline, and the cursor's row up to the cursor.
pub proof fn lemma_command_text_rows(
    grid: Seq<Seq<Cell>>,
    cols: int,
    total: int,
    r: int,
    start_col: int,
    end_col: int,
)
    requires
        0 <= r,
        r + 1 < grid.len(),
        0 <= start_col,
        0 <= end_col <= cols,
        total >= 0,
    ensures
        command_text(grid, cols, total, total + r, start_col, end_col, r) == trim(
            cell_chars(grid[r], start_col, end_col),
        ),
        command_text(grid, cols, total, total + r, start_col, end_col, r + 1) == trim(
            cell_chars(grid[r], start_col, cols) + seq!['\n'] + cell_chars(grid[r + 1], 0, end_col),
        ),
{
    assert(rows_text(grid, cols, r, start_col, r, end_col, r) == Seq::<char>::empty());
    assert(rows_text(grid, cols, r, start_col, r, end_col, r + 1) =~= cell_chars(
        grid[r],
        start_col,
        end_col,
    ));
    assert(rows_text(grid, cols, r, start_col, r + 1, end_col, r) == Seq::<char>::empty());
    assert(rows_text(grid, cols, r, start_col, r + 1, end_col, r + 1) =~= cell_chars(
        grid[r],
        start_col,
        cols,
    ) + seq!['\n']);
    assert(rows_text(grid, cols, r, start_col, r + 1, end_col, r + 2) =~= cell_chars(
        grid[r],
        start_col,
        cols,
    ) + seq!['\n'] + cell_chars(grid[r + 1], 0, end_col));
}

} // verus!
