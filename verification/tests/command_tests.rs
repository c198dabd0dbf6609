use termojinal::command::{extract_command_text, CommandTracker};
use termojinal::history::jump_to_prev_command;
use termojinal::print::{write_char, Cell};
use termojinal::sgr::Pen;

fn screen(lines: &[&str], cols: usize) -> Vec<Vec<Cell>> {
    lines
        .iter()
        .map(|l| {
            let mut row = vec![Cell::blank(); cols];
            for (i, c) in l.chars().enumerate() {
                write_char(&mut row, i, c, 1, Pen::new(), false);
            }
            row
        })
        .collect()
}

#[test]
fn full_command_cycle_is_recorded() {
    let mut t = CommandTracker::new(true, 100);
    t.prompt_start(10, "/home/me");
    t.command_start(10, 2);
    assert_eq!(t.pending_input_start(), Some((10, 2)));
    t.command_executed("ls -la".to_string(), 11, 1_000);
    t.command_finished(Some(0), 20, 1_250);
    let h = t.history();
    assert_eq!(h.len(), 1);
    let r = &h[0];
    assert_eq!(r.id, 0);
    assert_eq!(r.command_text, "ls -la");
    assert_eq!(r.cwd, "/home/me");
    assert_eq!(r.timestamp_ms, 1_000);
    assert_eq!(r.duration_ms, Some(250));
    assert_eq!(r.exit_code, Some(0));
    assert_eq!(r.scrollback_line_start, 11);
    assert_eq!(r.scrollback_line_end, Some(20));
    assert_eq!(r.prompt_line, 10);
    assert_eq!(t.next_command_id(), 1);
    assert_eq!(t.pending_input_start(), None);
}

#[test]
fn prompt_without_finish_finalizes_previous_command() {
    let mut t = CommandTracker::new(true, 100);
    t.prompt_start(0, "/");
    t.command_executed("make".to_string(), 1, 5);
    t.prompt_start(7, "/");
    let h = t.history();
    assert_eq!(h.len(), 1);
    assert_eq!(h[0].command_text, "make");
    assert_eq!(h[0].duration_ms, None);
    assert_eq!(h[0].exit_code, None);
    assert_eq!(h[0].scrollback_line_end, Some(7));
    // A prompt that never ran a command leaves nothing.
    t.prompt_start(9, "/");
    assert_eq!(t.history().len(), 1);
    assert_eq!(t.pending_input_start(), Some((0, 0)));
}

#[test]
fn clock_going_back_gives_zero_duration() {
    let mut t = CommandTracker::new(true, 100);
    t.prompt_start(0, "/");
    t.command_executed("x".to_string(), 1, 500);
    t.command_finished(None, 2, 100);
    assert_eq!(t.history()[0].duration_ms, Some(0));
}

#[test]
fn history_is_bounded() {
    let mut t = CommandTracker::new(true, 2);
    for i in 0..5usize {
        t.prompt_start(i * 10, "/");
        t.command_executed(format!("cmd{i}"), i * 10 + 1, 0);
        t.command_finished(Some(i as i32), i * 10 + 5, 1);
    }
    let h = t.history();
    assert_eq!(h.len(), 2);
    assert_eq!(h[0].command_text, "cmd3");
    assert_eq!(h[1].command_text, "cmd4");
    assert_eq!(h[1].id, 4);
    assert_eq!(t.prompt_lines(), vec![30, 40]);
}

#[test]
fn disabled_tracking_records_nothing() {
    let mut t = CommandTracker::new(false, 10);
    t.prompt_start(0, "/");
    t.command_executed("x".to_string(), 1, 0);
    t.command_finished(Some(1), 2, 1);
    assert_eq!(t.history().len(), 0);
    t.set_command_history_enabled(true);
    t.set_max_command_history(1);
    t.prompt_start(3, "/");
    t.command_executed("y".to_string(), 4, 0);
    t.command_finished(Some(1), 5, 1);
    assert_eq!(t.history().len(), 1);
}

#[test]
fn executed_without_prompt_stores_no_text() {
    let mut t = CommandTracker::new(true, 10);
    t.command_executed("orphan".to_string(), 1, 0);
    t.prompt_start(2, "/");
    assert_eq!(t.history().len(), 0);
}

#[test]
fn jumps_use_recorded_prompts() {
    let mut t = CommandTracker::new(true, 10);
    for line in [5usize, 40, 90] {
        t.prompt_start(line, "/");
        t.command_executed("c".to_string(), line + 1, 0);
        t.command_finished(Some(0), line + 3, 0);
    }
    let prompts = t.prompt_lines();
    // 100 lines scrolled off, live screen of 24 rows: the viewport top is 124.
    assert_eq!(jump_to_prev_command(&prompts, 100, 0, 24), Some((2, 10)));
}

#[test]
fn command_text_is_read_from_the_screen() {
    let grid = screen(&["$ echo hi   ", "  there     ", "            "], 12);
    // Start at line 2 col 2 (absolute), two lines scrolled off, cursor at (2, 1).
    assert_eq!(extract_command_text(&grid, 12, 2, 2, 2, 7, 1), "echo hi   \n  there");
    assert_eq!(extract_command_text(&grid, 12, 2, 2, 2, 9, 0), "echo hi");
    // Start scrolled off, or below the screen.
    assert_eq!(extract_command_text(&grid, 12, 2, 1, 0, 5, 0), "");
    assert_eq!(extract_command_text(&grid, 12, 2, 9, 0, 5, 0), "");
    // Cursor above the start: nothing.
    assert_eq!(extract_command_text(&grid, 12, 0, 1, 0, 5, 0), "");
}

#[test]
fn continuation_cells_are_skipped() {
    let mut row = vec![Cell::blank(); 6];
    write_char(&mut row, 0, 'a', 1, Pen::new(), false);
    write_char(&mut row, 1, '\u{6f22}', 2, Pen::new(), false);
    write_char(&mut row, 3, 'b', 1, Pen::new(), false);
    assert_eq!(extract_command_text(&vec![row], 6, 0, 0, 0, 4, 0), "a\u{6f22}b");
}
