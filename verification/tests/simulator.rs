use ansimulator::{Ansimulation, Ansimulator, Cell, Position, Style};

fn grid_chars(sim: &Ansimulation) -> String {
    sim.buffer.iter().map(|c| c.contents).collect()
}

#[test]
fn plain_text_wraps_at_width() {
    let mut sim = Ansimulation::new(3, 2);
    let n = sim.write(b"ABCD");
    assert_eq!(n, 4);
    assert!(sim.flush());
    assert_eq!(grid_chars(&sim), "ABCD  ");
    assert_eq!(sim.current_cursor, Position { row: 1, col: 1 });
    assert_eq!(sim.queue.len(), 0);
}

#[test]
fn sgr_reset_clears_bold() {
    let mut sim = Ansimulation::new(4, 1);
    sim.write(b"\x1b[1mA\x1b[0mB");
    assert!(sim.flush());
    assert_eq!(sim.buffer[0], Cell { contents: 'A', style: Style { bold: true } });
    assert_eq!(sim.buffer[1], Cell { contents: 'B', style: Style { bold: false } });
}

#[test]
fn sgr_code_22_clears_bold() {
    let mut sim = Ansimulation::new(4, 1);
    sim.write(b"\x1b[1mA\x1b[22mB");
    assert!(sim.flush());
    assert!(sim.buffer[0].style.bold);
    assert!(!sim.buffer[1].style.bold);
}

#[test]
fn save_move_restore_returns_cursor() {
    let mut sim = Ansimulation::new(5, 4);
    sim.write(b"\x1b[2;3H\x1b7\x1b[9C\x1b[2B\x1b8");
    assert!(sim.flush());
    assert_eq!(sim.current_cursor, Position { row: 1, col: 2 });
}

#[test]
fn csi_save_restore_returns_cursor() {
    let mut sim = Ansimulation::new(5, 4);
    sim.write(b"\x1b[3;4H\x1b[s\x1b[H\x1b[u");
    assert!(sim.flush());
    assert_eq!(sim.current_cursor, Position { row: 2, col: 3 });
}

#[test]
fn restore_without_save_is_noop() {
    let mut sim = Ansimulation::new(3, 3);
    sim.write(b"\x1b[2;2H\x1b8");
    assert!(sim.flush());
    assert_eq!(sim.current_cursor, Position { row: 1, col: 1 });
}

#[test]
fn cursor_motion_clamps_at_edges() {
    let mut sim = Ansimulation::new(4, 3);
    sim.write(b"\x1b[99A\x1b[99D");
    assert!(sim.flush());
    assert_eq!(sim.current_cursor, Position { row: 0, col: 0 });
    sim.write(b"\x1b[99B\x1b[99C");
    assert!(sim.flush());
    assert_eq!(sim.current_cursor, Position { row: 2, col: 3 });
}

#[test]
fn cursor_motion_default_parameter_is_one() {
    let mut sim = Ansimulation::new(4, 3);
    sim.write(b"\x1b[B\x1b[C");
    assert!(sim.flush());
    assert_eq!(sim.current_cursor, Position { row: 1, col: 1 });
}

#[test]
fn absolute_position_default_is_origin() {
    let mut sim = Ansimulation::new(4, 3);
    sim.write(b"\x1b[2;2H\x1b[H");
    assert!(sim.flush());
    assert_eq!(sim.current_cursor, Position { row: 0, col: 0 });
}

#[test]
fn erase_line_to_end() {
    let mut sim = Ansimulation::new(3, 2);
    sim.write(b"ABCDEF\x1b[1;2H\x1b[K");
    assert!(sim.flush());
    assert_eq!(grid_chars(&sim), "A  DEF");
    assert_eq!(sim.current_cursor, Position { row: 0, col: 1 });
}

#[test]
fn erase_line_to_start_and_whole() {
    let mut sim = Ansimulation::new(3, 1);
    sim.write(b"ABC\x1b[1;2H\x1b[1K");
    assert!(sim.flush());
    assert_eq!(grid_chars(&sim), "  C");
    sim.write(b"XYZ\x1b[2K");
    assert!(sim.flush());
    assert_eq!(grid_chars(&sim), "   ");
}

#[test]
fn erase_display_whole() {
    let mut sim = Ansimulation::new(3, 2);
    sim.write(b"ABCDEF\x1b[2J");
    assert!(sim.flush());
    assert_eq!(grid_chars(&sim), "      ");
    assert_eq!(sim.current_cursor, Position { row: 1, col: 0 });
}

#[test]
fn erase_display_to_end_and_start() {
    let mut sim = Ansimulation::new(3, 2);
    sim.write(b"ABCDEF\x1b[1;3H\x1b[J");
    assert!(sim.flush());
    assert_eq!(grid_chars(&sim), "AB    ");
    let mut sim2 = Ansimulation::new(3, 2);
    sim2.write(b"ABCDEF\x1b[1;2H\x1b[1J");
    assert!(sim2.flush());
    assert_eq!(grid_chars(&sim2), "  CDEF");
}

#[test]
fn writes_past_last_row_overwrite_it() {
    let mut sim = Ansimulation::new(2, 2);
    sim.write(b"ABCDE");
    assert!(sim.flush());
    assert_eq!(grid_chars(&sim), "ABED");
    assert_eq!(sim.current_cursor, Position { row: 1, col: 1 });
}

#[test]
fn unsupported_private_sequence_is_ignored() {
    let mut sim = Ansimulation::new(3, 2);
    let before = sim.buffer.clone();
    sim.write(b"\x1b[?1049h");
    assert!(sim.flush());
    assert_eq!(sim.buffer, before);
    assert_eq!(sim.current_cursor, Position { row: 0, col: 0 });
}

#[test]
fn title_sequence_is_consumed_without_effect() {
    let mut sim = Ansimulation::new(8, 1);
    sim.write(b"\x1b]0;my title\x07A");
    assert!(sim.flush());
    assert_eq!(grid_chars(&sim), "A       ");
    assert_eq!(sim.current_cursor, Position { row: 0, col: 1 });
}

#[test]
fn title_sequence_with_string_terminator() {
    let mut sim = Ansimulation::new(4, 1);
    sim.write(b"\x1b]2;t[1;1Hx\x1b\\B");
    assert!(sim.flush());
    assert_eq!(grid_chars(&sim), "B   ");
    assert_eq!(sim.current_cursor, Position { row: 0, col: 1 });
}

#[test]
fn stray_escape_inside_title_stays_in_the_string() {
    let mut sim = Ansimulation::new(3, 1);
    sim.write(b"\x1b]0;a\x1bzb\x07C");
    assert!(sim.flush());
    assert_eq!(grid_chars(&sim), "C  ");
}

#[test]
fn bytes_outside_ascii_are_consumed() {
    let mut sim = Ansimulation::new(4, 1);
    sim.write(&[0x41, 0xc3, 0xa9, 0x80, 0xff, 0x42]);
    assert!(sim.flush());
    assert_eq!(grid_chars(&sim), "AB  ");
}

#[test]
fn unknown_two_byte_escape_is_consumed() {
    let mut sim = Ansimulation::new(3, 1);
    sim.write(b"\x1bMA");
    assert!(sim.flush());
    assert_eq!(grid_chars(&sim), "A  ");
}

#[test]
fn malformed_csi_falls_back_to_ground() {
    let mut sim = Ansimulation::new(3, 1);
    sim.write(b"\x1b[12\x01AB");
    assert!(sim.flush());
    assert_eq!(grid_chars(&sim), "AB ");
}

#[test]
fn incomplete_escape_at_flush_is_discarded() {
    let mut sim = Ansimulation::new(3, 1);
    sim.write(b"A\x1b");
    assert!(sim.flush());
    sim.write(b"B");
    assert!(sim.flush());
    assert_eq!(grid_chars(&sim), "AB ");
}

#[test]
fn control_bytes_in_ground_are_ignored() {
    let mut sim = Ansimulation::new(3, 1);
    sim.write(b"A\x00\x07B");
    assert!(sim.flush());
    assert_eq!(grid_chars(&sim), "AB ");
}

#[test]
fn flush_rejects_malformed_screen() {
    let mut sim = Ansimulation {
        width: 2,
        height: 2,
        buffer: Vec::new(),
        saved_cursor: None,
        current_cursor: Position { row: 0, col: 0 },
        current_style: Style { bold: false },
        queue: Vec::new(),
    };
    assert!(!sim.check_invariant());
    assert!(!sim.flush());
}

#[test]
fn flip_on_identical_screens_is_empty() {
    let mut sim = Ansimulator::new(4, 3);
    assert_eq!(sim.flip(), Vec::<u8>::new());
    sim.write(b"hello");
    sim.flush();
    sim.flip();
    // No intervening writes: the buffers already agree.
    assert_eq!(sim.flip(), Vec::<u8>::new());
}

#[test]
fn flip_twice_returns_empty_the_second_time() {
    let mut sim = Ansimulator::new(5, 2);
    sim.write(b"\x1b[2;1Hworld");
    sim.flush();
    let first = sim.flip();
    assert!(!first.is_empty());
    assert_eq!(sim.flip(), Vec::<u8>::new());
}

#[test]
fn scenario_blank_three_by_one() {
    let mut sim = Ansimulator::new(3, 1);
    sim.write(b"AB");
    sim.flush();
    let bytes = sim.flip();
    // Position at (0,0), write both changed cells, leave (0,2) alone.
    assert_eq!(bytes, b"\x1b[1;1HAB".to_vec());
    assert_eq!(sim.inner.buffer[2], Cell { contents: ' ', style: Style { bold: false } });
}

fn assert_flip_round_trip(sim: &mut Ansimulator) -> Vec<u8> {
    sim.flush();
    let mut prior = sim.inner.clone();
    let bytes = sim.flip();
    prior.write(&bytes);
    assert!(prior.flush());
    assert_eq!(prior.buffer, sim.inner.buffer);
    assert_eq!(prior.current_cursor, sim.inner.current_cursor);
    bytes
}

#[test]
fn flip_round_trip_single_cell() {
    let mut sim = Ansimulator::new(4, 3);
    sim.write(b"ABCD\x1b[2;2HE");
    sim.flush();
    sim.flip();
    sim.write(b"\x1b[2;2HZ");
    let bytes = assert_flip_round_trip(&mut sim);
    assert!(!bytes.is_empty());
}

#[test]
fn flip_round_trip_single_row_run() {
    let mut sim = Ansimulator::new(6, 2);
    sim.write(b"abcdef");
    sim.flush();
    sim.flip();
    sim.write(b"\x1b[1;2HXYZ");
    assert_flip_round_trip(&mut sim);
}

#[test]
fn flip_round_trip_full_grid() {
    let mut sim = Ansimulator::new(3, 3);
    sim.write(b"ABCDEFGHI");
    assert_flip_round_trip(&mut sim);
    sim.write(b"\x1b[H\x1b[1mrstuvwxyz");
    assert_flip_round_trip(&mut sim);
}

#[test]
fn flip_round_trip_styled_run() {
    let mut sim = Ansimulator::new(5, 1);
    sim.write(b"ab\x1b[1mcd\x1b[0me");
    let bytes = assert_flip_round_trip(&mut sim);
    // The bold run needs an SGR before it and a reset afterwards.
    assert!(!bytes.is_empty());
    let mut sim2 = Ansimulator::new(5, 1);
    sim2.write(&bytes);
    sim2.flush();
    assert!(sim2.outer.buffer[2].style.bold);
    assert!(!sim2.outer.buffer[4].style.bold);
}

#[test]
fn flip_resets_style_register_before_a_plain_run() {
    let mut sim = Ansimulator::new(3, 1);
    sim.write(b"\x1b[1mABC");
    sim.flush();
    sim.flip();
    sim.write(b"\x1b[1;1H\x1b[0mx");
    let bytes = assert_flip_round_trip(&mut sim);
    assert_eq!(bytes, b"\x1b[1;1H\x1b[0mx".to_vec());
}

#[test]
fn flip_skips_unchanged_cells_between_runs() {
    let mut sim = Ansimulator::new(7, 1);
    sim.write(b"ABCDEFG");
    sim.flush();
    sim.flip();
    // Change the two ends, keep the middle.
    sim.write(b"\x1b[1;1HZ\x1b[1;7HQ");
    sim.flush();
    let bytes = sim.flip();
    // The middle cells are skipped by one relative move, not rewritten.
    assert_eq!(bytes, b"\x1b[1;1HZ\x1b[5CQ".to_vec());
}

#[test]
fn short_backward_move_uses_relative_motion() {
    let mut sim = Ansimulator::new(20, 1);
    sim.write(b"\x1b[1;11HY\x1b[1;9H");
    sim.flush();
    let bytes = sim.flip();
    assert_eq!(bytes, b"\x1b[1;11HY\x1b[3D".to_vec());
}

#[test]
fn positioning_tie_goes_to_absolute() {
    // Back 101 columns: `ESC [ 1 0 1 D` and `ESC [ 1 ; 1 H` are both six
    // bytes, and the tie is broken toward the absolute jump.
    let mut sim = Ansimulator::new(200, 1);
    sim.write(b"\x1b[1;101HY\x1b[1;1H");
    sim.flush();
    let bytes = sim.flip();
    assert_eq!(bytes, b"\x1b[1;101HY\x1b[1;1H".to_vec());
}

#[test]
fn long_backward_move_uses_absolute_jump() {
    let mut sim = Ansimulator::new(1200, 1);
    sim.write(b"\x1b[1;1051HY\x1b[1;1H");
    sim.flush();
    let bytes = sim.flip();
    assert_eq!(bytes, b"\x1b[1;1051HY\x1b[1;1H".to_vec());
}

#[test]
fn checked_flip_matches_flip_on_well_formed_screens() {
    let mut sim = Ansimulator::new(3, 1);
    sim.write(b"AB");
    sim.flush();
    let bytes = sim.checked_flip().unwrap();
    assert_eq!(bytes, b"\x1b[1;1HAB".to_vec());
    assert_eq!(sim.checked_flip().unwrap(), Vec::<u8>::new());
}

#[test]
fn checked_flip_rejects_mismatched_dimensions() {
    let mut sim = Ansimulator::new(2, 2);
    sim.inner = Ansimulation::new(3, 2);
    assert!(sim.checked_flip().is_none());
    // Both screens are left untouched: no corrupt diff is produced.
    assert_eq!(sim.inner.width, 3);
    assert_eq!(sim.outer.width, 2);
}

#[test]
fn flip_emits_final_cursor_fixup() {
    let mut sim = Ansimulator::new(4, 2);
    sim.write(b"hi\x1b[2;4H");
    sim.flush();
    let bytes = sim.flip();
    assert!(bytes.ends_with(b"\x1b[2;4H"));
    assert_eq!(sim.inner.current_cursor, Position { row: 1, col: 3 });
}

#[test]
fn flip_flushes_pending_writes_first() {
    let mut sim = Ansimulator::new(3, 1);
    sim.write(b"AB");
    // No explicit flush before the flip.
    let bytes = sim.flip();
    assert_eq!(bytes, b"\x1b[1;1HAB".to_vec());
    assert_eq!(sim.outer.queue.len(), 0);
}

#[test]
fn write_reports_every_byte_accepted() {
    let mut sim = Ansimulator::new(3, 1);
    assert_eq!(sim.write(b""), 0);
    assert_eq!(sim.write(b"\x1b[1mAB"), 6);
    assert_eq!(sim.outer.queue.len(), 6);
}

#[test]
fn default_cell_is_blank_space() {
    let cell = Cell::default();
    assert_eq!(cell, Cell { contents: ' ', style: Style::default() });
    assert!(!Style::default().bold);
    assert_eq!(Position::default(), Position { row: 0, col: 0 });
}

#[test]
fn new_screen_satisfies_invariant() {
    let sim = Ansimulation::new(7, 5);
    assert!(sim.check_invariant());
    assert_eq!(sim.buffer.len(), 35);
    assert_eq!(grid_chars(&sim), " ".repeat(35));
}

#[test]
fn copy_from_duplicates_flushed_state() {
    let mut a = Ansimulation::new(3, 2);
    a.write(b"\x1b[1mhi\x1b7");
    assert!(a.flush());
    let mut b = Ansimulation::new(3, 2);
    b.write(b"junk");
    b.copy_from(&a);
    assert_eq!(b.buffer, a.buffer);
    assert_eq!(b.current_cursor, a.current_cursor);
    assert_eq!(b.saved_cursor, a.saved_cursor);
    assert_eq!(b.queue.len(), 0);
}

#[test]
fn resize_keeps_top_left_and_clamps_cursor() {
    let mut sim = Ansimulation::new(3, 2);
    sim.write(b"ABCDEF");
    assert!(sim.flush());
    sim.resize(2, 2);
    assert_eq!(grid_chars(&sim), "ABDE");
    assert_eq!(sim.current_cursor, Position { row: 1, col: 0 });
    sim.resize(4, 3);
    assert_eq!(grid_chars(&sim), "AB  DE      ");
    assert_eq!(sim.current_cursor, Position { row: 1, col: 0 });
}

#[test]
fn resize_clamps_saved_cursor() {
    let mut sim = Ansimulation::new(5, 5);
    sim.write(b"\x1b[4;5H\x1b7\x1b[H");
    assert!(sim.flush());
    sim.resize(2, 2);
    sim.write(b"\x1b8");
    assert!(sim.flush());
    assert_eq!(sim.current_cursor, Position { row: 1, col: 1 });
}

#[test]
fn simulator_resize_keeps_both_screens_in_step() {
    let mut sim = Ansimulator::new(4, 2);
    sim.write(b"ABCDEFGH");
    sim.flush();
    sim.flip();
    sim.resize(2, 2);
    assert_eq!(grid_chars(&sim.inner), "ABEF");
    assert_eq!(grid_chars(&sim.outer), "ABEF");
    assert_eq!(sim.flip(), Vec::<u8>::new());
}

#[test]
fn saturating_parameter_does_not_desynchronize() {
    let mut sim = Ansimulation::new(3, 1);
    sim.write(b"\x1b[99999999999999999999999999CX");
    assert!(sim.flush());
    assert_eq!(sim.current_cursor, Position { row: 0, col: 0 });
    assert_eq!(grid_chars(&sim), "  X");
}
