//! Navigation between recorded shell commands (OSC 133): absolute scrollback
//! lines, scroll offsets, and binary search over the commands' prompt lines.

use vstd::prelude::*;

verus! {

/// Whether the prompt lines are in ascending order (commands are recorded in
/// the order their prompts appear).
pub open spec fn ascending(lines: Seq<usize>) -> bool {
    forall|i: int, j: int| 0 <= i <= j < lines.len() ==> lines[i] <= lines[j]
}

/// Whether the prompt lines are in ascending order, as the searches over
/// them need (records are kept in the order their prompts appeared, which
/// is ascending unless the application moved the cursor up before a new
/// prompt).
pub fn prompts_ascending(lines: &Vec<usize>) -> (r: bool)
    ensures
        r == ascending(lines@),
{
    let n = lines.len();
    if n == 0 {
        return true;
    }
    let mut i: usize = 1;
    while i < n
        invariant
            1 <= i <= n == lines@.len(),
            ascending(lines@.take(i as int)),
        decreases n - i,
    {
        if lines[i - 1] > lines[i] {
            proof {
                assert(!ascending(lines@)) by {
                    assert(lines@[i - 1] > lines@[i as int]);
                }
            }
            return false;
        }
        proof {
            let t = lines@.take(i + 1);
            assert forall|a: int, b: int| 0 <= a <= b < t.len() implies t[a] <= t[b] by {
                if b == i {
                    if a < i {
                        assert(lines@.take(i as int)[a] <= lines@.take(i as int)[i - 1]);
                    }
                } else {
                    assert(lines@.take(i as int)[a] <= lines@.take(i as int)[b]);
                }
            }
        }
        i = i + 1;
    }
    proof {
        assert(lines@.take(n as int) =~= lines@);
    }
    true
}

/// Compute the current absolute line number for a given screen row.
pub fn abs_line(total_scrolled_lines: usize, screen_row: usize) -> (line: usize)
    requires
        total_scrolled_lines + screen_row <= usize::MAX,
    ensures
        line == total_scrolled_lines + screen_row,
{
    total_scrolled_lines + screen_row
}

/// The scroll offset that brings absolute line `line` to the top of the
/// viewport: 0 (the live screen) for a line that has not scrolled off.
pub open spec fn scroll_offset_for(total_scrolled_lines: usize, line: usize) -> usize {
    if line >= total_scrolled_lines {
        0
    } else {
        (total_scrolled_lines - line) as usize
    }
}

/// The absolute line at the top of the viewport (for the live screen, the
/// line below it).
pub open spec fn viewport_top(total_scrolled_lines: usize, scroll_offset: usize, rows: usize) -> int {
    if scroll_offset == 0 {
        total_scrolled_lines + rows
    } else if total_scrolled_lines >= scroll_offset {
        total_scrolled_lines - scroll_offset
    } else {
        0
    }
}

/// Convert an absolute line number to a scroll_offset.
pub fn abs_line_to_scroll_offset(total_scrolled_lines: usize, line: usize) -> (offset: usize)
    ensures
        offset == scroll_offset_for(total_scrolled_lines, line),
{
    if line >= total_scrolled_lines {
        0
    } else {
        let scrollback_idx = total_scrolled_lines - 1 - line;
        scrollback_idx + 1
    }
}

/// Compute the absolute line at the current viewport top.
pub fn viewport_top_abs(total_scrolled_lines: usize, scroll_offset: usize, rows: usize) -> (top: usize)
    requires
        scroll_offset == 0 ==> total_scrolled_lines + rows <= usize::MAX,
    ensures
        top == viewport_top(total_scrolled_lines, scroll_offset, rows),
{
    if scroll_offset == 0 {
        total_scrolled_lines + rows
    } else {
        total_scrolled_lines.saturating_sub(scroll_offset)
    }
}

/// Number of leading prompt lines below `target` (`strict`) or not above it.
fn partition_point(lines: &Vec<usize>, target: usize, strict: bool) -> (pos: usize)
    requires
        ascending(lines@),
    ensures
        pos <= lines@.len(),
        forall|j: int| 0 <= j < pos ==> if strict {
            lines@[j] < target
        } else {
            lines@[j] <= target
        },
        forall|j: int| pos <= j < lines@.len() ==> if strict {
            lines@[j] >= target
        } else {
            lines@[j] > target
        },
{
    let mut lo: usize = 0;
    let mut hi: usize = lines.len();
    while lo < hi
        invariant
            ascending(lines@),
            lo <= hi <= lines@.len(),
            forall|j: int| 0 <= j < lo ==> if strict {
                lines@[j] < target
            } else {
                lines@[j] <= target
            },
            forall|j: int| hi <= j < lines@.len() ==> if strict {
                lines@[j] >= target
            } else {
                lines@[j] > target
            },
        decreases hi - lo,
    {
        let mid = lo + (hi - lo) / 2;
        let below = if strict {
            lines[mid] < target
        } else {
            lines[mid] <= target
        };
        if below {
            lo = mid + 1;
        } else {
            hi = mid;
        }
    }
    lo
}

/// Binary-search: find the last command whose prompt_line < target.
pub fn find_prev_command_idx(prompt_lines: &Vec<usize>, target_abs: usize) -> (r: Option<usize>)
    requires
        ascending(prompt_lines@),
    ensures
        match r {
            Some(k) => k < prompt_lines@.len() && prompt_lines@[k as int] < target_abs && (k + 1
                == prompt_lines@.len() || prompt_lines@[k + 1] >= target_abs),
            None => prompt_lines@.len() == 0 || prompt_lines@[0] >= target_abs,
        },
{
    if prompt_lines.len() == 0 {
        return None;
    }
    let pos = partition_point(prompt_lines, target_abs, true);
    if pos == 0 {
        None
    } else {
        Some(pos - 1)
    }
}

/// Binary-search: find the first command whose prompt_line > target.
pub fn find_next_command_idx(prompt_lines: &Vec<usize>, target_abs: usize) -> (r: Option<usize>)
    requires
        ascending(prompt_lines@),
    ensures
        match r {
            Some(k) => k < prompt_lines@.len() && prompt_lines@[k as int] > target_abs && (k == 0
                || prompt_lines@[k - 1] <= target_abs),
            None => prompt_lines@.len() == 0 || prompt_lines@.last() <= target_abs,
        },
{
    let pos = partition_point(prompt_lines, target_abs, false);
    if pos < prompt_lines.len() {
        Some(pos)
    } else {
        None
    }
}

/// The command whose output is at the top of the viewport: the last one
/// whose prompt is not below `view_abs`.
pub fn current_visible_command_idx(prompt_lines: &Vec<usize>, view_abs: usize) -> (r: Option<usize>)
    requires
        ascending(prompt_lines@),
    ensures
        match r {
            Some(k) => k < prompt_lines@.len() && prompt_lines@[k as int] <= view_abs && (k + 1
                == prompt_lines@.len() || prompt_lines@[k + 1] > view_abs),
            None => prompt_lines@.len() == 0 || prompt_lines@[0] > view_abs,
        },
{
    let pos = partition_point(prompt_lines, view_abs, false);
    if pos == 0 {
        None
    } else {
        Some(pos - 1)
    }
}

/// Jumping to a line in the scrollback puts it at the top of the viewport;
/// a line on the live screen brings the live screen back.
pub proof fn lemma_jump_puts_line_on_top(total_scrolled_lines: usize, line: usize, rows: usize)
    ensures
        line < total_scrolled_lines ==> viewport_top(
            total_scrolled_lines,
            scroll_offset_for(total_scrolled_lines, line),
            rows,
        ) == line,
        line >= total_scrolled_lines ==> scroll_offset_for(total_scrolled_lines, line) == 0,
{
}


/// Where "previous command" goes from the current scroll position: the
/// index of the last command whose prompt is above the viewport top, and
/// the scroll offset that brings that prompt to the top.
pub fn jump_to_prev_command(
    prompt_lines: &Vec<usize>,
    total_scrolled_lines: usize,
    scroll_offset: usize,
    rows: usize,
) -> (r: Option<(usize, usize)>)
    requires
        ascending(prompt_lines@),
        scroll_offset == 0 ==> total_scrolled_lines + rows <= usize::MAX,
    ensures
        ({
            let top = viewport_top(total_scrolled_lines, scroll_offset, rows);
            match r {
                Some((k, offset)) => k < prompt_lines@.len() && prompt_lines@[k as int] < top && (k
                    + 1 == prompt_lines@.len() || prompt_lines@[k + 1] >= top) && offset
                    == scroll_offset_for(total_scrolled_lines, prompt_lines@[k as int]),
                None => prompt_lines@.len() == 0 || prompt_lines@[0] >= top,
            }
        }),
{
    let current_abs = viewport_top_abs(total_scrolled_lines, scroll_offset, rows);
    let idx = match find_prev_command_idx(prompt_lines, current_abs) {
        Some(k) => k,
        None => {
            return None;
        },
    };
    let target_line = prompt_lines[idx];
    Some((idx, abs_line_to_scroll_offset(total_scrolled_lines, target_line)))
}

/// Where "next command" goes from the current scroll position: nowhere on
/// the live screen; else the index of the first command whose prompt is
/// below the viewport top, and the scroll offset that brings it to the top.
pub fn jump_to_next_command(
    prompt_lines: &Vec<usize>,
    total_scrolled_lines: usize,
    scroll_offset: usize,
    rows: usize,
) -> (r: Option<(usize, usize)>)
    requires
        ascending(prompt_lines@),
    ensures
        scroll_offset == 0 ==> r is None,
        scroll_offset > 0 ==> ({
            let top = viewport_top(total_scrolled_lines, scroll_offset, rows);
            match r {
                Some((k, offset)) => k < prompt_lines@.len() && prompt_lines@[k as int] > top && (k
                    == 0 || prompt_lines@[k - 1] <= top) && offset == scroll_offset_for(
                    total_scrolled_lines,
                    prompt_lines@[k as int],
                ),
                None => prompt_lines@.len() == 0 || prompt_lines@.last() <= top,
            }
        }),
{
    if scroll_offset == 0 {
        return None;
    }
    let current_abs = viewport_top_abs(total_scrolled_lines, scroll_offset, rows);
    let idx = match find_next_command_idx(prompt_lines, current_abs) {
        Some(k) => k,
        None => {
            return None;
        },
    };
    let target_line = prompt_lines[idx];
    Some((idx, abs_line_to_scroll_offset(total_scrolled_lines, target_line)))
}

/// Where "go to command `id`" goes: the index of the first command with
/// that ID and the scroll offset that brings its prompt to the top.
pub fn jump_to_command(
    command_ids: &Vec<u64>,
    prompt_lines: &Vec<usize>,
    total_scrolled_lines: usize,
    id: u64,
) -> (r: Option<(usize, usize)>)
    requires
        command_ids@.len() == prompt_lines@.len(),
    ensures
        match r {
            Some((k, offset)) => k < command_ids@.len() && command_ids@[k as int] == id && (forall|
                j: int,
            | 0 <= j < k ==> command_ids@[j] != id) && offset == scroll_offset_for(
                total_scrolled_lines,
                prompt_lines@[k as int],
            ),
            None => forall|j: int| 0 <= j < command_ids@.len() ==> command_ids@[j] != id,
        },
{
    let mut i: usize = 0;
    while i < command_ids.len()
        invariant
            i <= command_ids@.len(),
            command_ids@.len() == prompt_lines@.len(),
            forall|j: int| 0 <= j < i ==> command_ids@[j] != id,
        decreases command_ids@.len() - i,
    {
        if command_ids[i] == id {
            let target_line = prompt_lines[i];
            return Some((i, abs_line_to_scroll_offset(total_scrolled_lines, target_line)));
        }
        i = i + 1;
    }
    None
}

} // verus!
