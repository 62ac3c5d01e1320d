//! General laws of the interpreter, proved for every state and input.

use vstd::prelude::*;
use crate::ansimulation::lemma_index_bound;
use crate::cell::Cell;
use crate::position::Position;
use crate::style::Style;
use crate::vt::{
    Mode, Vt, dispatch, lemma_run_concat, printable_byte, printable_char, put_char, run, step,
};
use crate::emit::{lemma_run_move, lemma_run_one, lemma_run_sgr, move_bytes, sgr_bytes};

verus! {

/// The position whose row-major index on a grid `width` wide is `idx`.
pub open spec fn pos_of(idx: int, width: nat) -> Position {
    Position { row: (idx / width as int) as usize, col: (idx % width as int) as usize }
}

/// Row-major index and position determine each other.
proof fn lemma_pos_index(row: int, col: int, w: int)
    requires
        0 <= row,
        0 <= col < w,
    ensures
        (row * w + col) / w == row,
        (row * w + col) % w == col,
{
    vstd::arithmetic::div_mod::lemma_fundamental_div_mod_converse(row * w + col, w, row, col);
}

/// Writing printable text with no escape bytes lands verbatim in the grid:
/// starting at the cursor's position, each byte becomes one cell carrying
/// the current style, wrapping at the right edge, with every other cell and
/// the style, saved cursor and mode untouched, and the cursor just past the
/// text.  (When the text would run past the last cell, later bytes
/// overwrite the last row, so the claim is stated for text that fits.)
pub proof fn lemma_plain_text(s: Vt, bytes: Seq<u8>)
    requires
        s.wf(),
        s.mode == Mode::Ground,
        forall|k: int| 0 <= k < bytes.len() ==> printable_byte(#[trigger] bytes[k]),
        s.cursor_index() + bytes.len() <= s.grid.len(),
    ensures
        ({
            let t = run(s, bytes);
            &&& t.grid.len() == s.grid.len()
            &&& forall|k: int|
                0 <= k < bytes.len() ==> t.grid[s.cursor_index() + k] == (Cell {
                    contents: bytes[k] as char,
                    style: s.style,
                })
            &&& forall|j: int|
                0 <= j < s.grid.len() && !(s.cursor_index() <= j && j < s.cursor_index()
                    + bytes.len()) ==> t.grid[j] == s.grid[j]
            &&& t.cursor == (if s.cursor_index() + bytes.len() < s.grid.len() {
                pos_of(s.cursor_index() + bytes.len(), s.width)
            } else {
                Position { row: (s.height - 1) as usize, col: 0 }
            })
            &&& t.style == s.style
            &&& t.saved == s.saved
            &&& t.mode == Mode::Ground
            &&& t.width == s.width
            &&& t.height == s.height
        }),
    decreases bytes.len(),
{
    let ci = s.cursor_index();
    let w = s.width as int;
    let h = s.height as int;
    let len = s.grid.len() as int;
    let row = s.cursor.row as int;
    let col = s.cursor.col as int;
    lemma_pos_index(row, col, w);
    lemma_index_bound(row, col, w, h);
    if bytes.len() == 0 {
        assert(run(s, bytes) == s);
        assert(pos_of(ci, s.width) == s.cursor);
    } else {
        let b0 = bytes[0];
        let rest = bytes.drop_first();
        let s1 = step(s, b0);
        assert(s1 == put_char(s, b0));
        assert((b0 as char) as u32 == b0 as u32);
        assert(s1.grid.len() == s.grid.len());
        assert forall|i2: int| 0 <= i2 < s1.grid.len() implies printable_char(
            #[trigger] s1.grid[i2].contents,
        ) by {
            if i2 != ci {
                assert(s1.grid[i2] == s.grid[i2]);
            }
        }
        if ci < len - 1 {
            // Not the last cell: the cursor advances to index ci + 1.
            if col + 1 < w {
                assert(s1.cursor_index() == ci + 1);
            } else {
                // End of a row that is not the last: wrap.
                assert((h - 1) * w + (w - 1) == h * w - 1) by (nonlinear_arith);
                assert((row + 1) * w == row * w + w) by (nonlinear_arith);
                if row + 1 >= h {
                    // row == h - 1 and col == w - 1 would put ci at len - 1.
                    assert(ci == h * w - 1);
                    assert(false);
                }
                assert(s1.cursor == Position { row: (row + 1) as usize, col: 0 });
                assert(s1.cursor_index() == ci + 1);
            }
            assert(s1.cursor.in_bounds(s1.width, s1.height)) by {
                lemma_pos_index(s1.cursor.row as int, s1.cursor.col as int, w);
                assert(s1.cursor_index() < len);
                lemma_index_bound(s1.cursor.row as int, s1.cursor.col as int, w, h);
                if s1.cursor.row as int >= h {
                    assert(s1.cursor_index() >= h * w) by (nonlinear_arith)
                        requires
                            s1.cursor.row as int >= h,
                            0 <= s1.cursor.col as int,
                            1 <= w,
                            s1.cursor_index() == s1.cursor.row as int * w + s1.cursor.col as int,
                    ;
                    assert(false);
                }
            }
            assert(s1.wf());
            lemma_plain_text(s1, rest);
            let t = run(s1, rest);
            assert(run(s, bytes) == t);
            assert forall|k: int| 0 <= k < bytes.len() implies run(s, bytes).grid[ci + k] == (Cell {
                contents: bytes[k] as char,
                style: s.style,
            }) by {
                if k == 0 {
                    assert(t.grid[ci] == s1.grid[ci]);
                } else {
                    assert(rest[k - 1] == bytes[k]);
                    assert(t.grid[ci + 1 + (k - 1)] == (Cell {
                        contents: rest[k - 1] as char,
                        style: s1.style,
                    }));
                }
            }
            assert forall|j: int|
                0 <= j < s.grid.len() && !(ci <= j && j < ci + bytes.len()) implies run(
                s,
                bytes,
            ).grid[j] == s.grid[j] by {
                assert(t.grid[j] == s1.grid[j]);
                assert(s1.grid[j] == s.grid[j]);
            }
        } else {
            // The text ends exactly at the last cell, so it is one byte.
            assert(ci == len - 1);
            assert(bytes.len() == 1);
            assert(rest.len() == 0);
            assert(run(s1, rest) == s1);
            assert(run(s, bytes) == s1);
            // The cursor sat on the last cell of the last row.
            assert((h - 1) * w + (w - 1) == h * w - 1) by (nonlinear_arith);
            lemma_pos_index(h - 1, w - 1, w);
            assert(row == h - 1 && col == w - 1);
            assert(s1.cursor == Position { row: (h - 1) as usize, col: 0 });
        }
    }
}

/// An SGR reset (`ESC [ 0 m`) followed by any printable text writes every
/// cell with the default style, whatever the style register held before.
pub proof fn lemma_sgr_reset_then_text(s: Vt, bytes: Seq<u8>)
    requires
        s.wf(),
        s.mode == Mode::Ground,
        forall|k: int| 0 <= k < bytes.len() ==> printable_byte(#[trigger] bytes[k]),
        s.cursor_index() + bytes.len() <= s.grid.len(),
    ensures
        ({
            let t = run(s, sgr_bytes(Style::plain()) + bytes);
            &&& t.grid.len() == s.grid.len()
            &&& forall|k: int|
                0 <= k < bytes.len() ==> t.grid[s.cursor_index() + k] == (Cell {
                    contents: bytes[k] as char,
                    style: Style::plain(),
                })
            &&& t.style == Style::plain()
        }),
{
    lemma_run_concat(s, sgr_bytes(Style::plain()), bytes);
    lemma_run_sgr(s, Style::plain());
    let s1 = Vt { style: Style::plain(), ..s };
    assert(s1.wf());
    assert(s1.cursor_index() == s.cursor_index());
    lemma_plain_text(s1, bytes);
}

/// Flipping twice without intervening writes returns nothing the second
/// time: a flip leaves the committed and outer screens agreeing with an
/// empty queue, and in that state the next flip meets its own
/// empty-result condition.
pub proof fn lemma_flip_idempotent(sim: crate::ansimulator::Ansimulator)
    requires
        sim.wf(),
        sim.inner.vt() == sim.outer.vt(),
        sim.outer.pending() == Seq::<u8>::empty(),
    ensures
        crate::vt::flush_vt(sim.outer.vt(), sim.outer.pending()) == sim.outer.vt(),
        sim.inner.vt().grid == crate::vt::flush_vt(sim.outer.vt(), sim.outer.pending()).grid,
        sim.inner.vt().cursor == crate::vt::flush_vt(sim.outer.vt(), sim.outer.pending()).cursor,
{
    assert(run(sim.outer.vt(), Seq::<u8>::empty()) == sim.outer.vt());
}

/// The two-byte save and restore escapes.
pub open spec fn save_bytes() -> Seq<u8> {
    seq![0x1bu8, 0x37u8]
}

pub open spec fn restore_bytes() -> Seq<u8> {
    seq![0x1bu8, 0x38u8]
}

/// Saving the cursor, replaying any bytes that leave the saved register
/// alone and end outside an escape sequence, then restoring, returns the
/// cursor to exactly the saved position.  Cursor-motion sequences of any
/// number and kind satisfy the two side conditions.
pub proof fn lemma_save_any_motion_restore(s: Vt, m: Seq<u8>)
    requires
        s.mode == Mode::Ground,
        run(Vt { saved: Some(s.cursor), ..s }, m).saved == Some(s.cursor),
        run(Vt { saved: Some(s.cursor), ..s }, m).mode == Mode::Ground,
    ensures
        run(s, save_bytes() + m + restore_bytes()).cursor == s.cursor,
{
    lemma_run_concat(s, save_bytes() + m, restore_bytes());
    lemma_run_concat(s, save_bytes(), m);
    lemma_run_one(s, 0x1b);
    let e1 = step(s, 0x1b);
    assert(save_bytes().drop_first() =~= seq![0x37u8]);
    assert(run(s, save_bytes()) == run(e1, seq![0x37u8]));
    lemma_run_one(e1, 0x37);
    let s1 = step(e1, 0x37);
    assert(s1 == Vt { saved: Some(s.cursor), mode: Mode::Ground, ..s });
    assert(s1 == Vt { saved: Some(s.cursor), ..s });
    let s2 = run(s1, m);
    lemma_run_one(s2, 0x1b);
    let e2 = step(s2, 0x1b);
    assert(restore_bytes().drop_first() =~= seq![0x38u8]);
    assert(run(s2, restore_bytes()) == run(e2, seq![0x38u8]));
    lemma_run_one(e2, 0x38);
    assert(step(e2, 0x38).cursor == s.cursor);
}

/// Whether `f` is a cursor-motion final byte: up, down, forward, back,
/// or absolute positioning.
pub open spec fn is_motion(f: u8) -> bool {
    f == 0x41 || f == 0x42 || f == 0x43 || f == 0x44 || f == 0x48 || f == 0x66
}

/// The concatenated bytes of a list of single-parameter cursor-motion
/// sequences.
pub open spec fn moves_bytes(ms: Seq<(usize, u8)>) -> Seq<u8>
    decreases ms.len(),
{
    if ms.len() == 0 {
        Seq::empty()
    } else {
        move_bytes(ms[0].0, ms[0].1) + moves_bytes(ms.drop_first())
    }
}

/// Any list of cursor-motion sequences moves only the cursor: the saved
/// register, grid and style are untouched, and the parser ends outside
/// any escape sequence.
pub proof fn lemma_moves_preserve_saved(s: Vt, ms: Seq<(usize, u8)>)
    requires
        s.mode == Mode::Ground,
        forall|k: int| 0 <= k < ms.len() ==> is_motion(#[trigger] ms[k].1),
    ensures
        run(s, moves_bytes(ms)).saved == s.saved,
        run(s, moves_bytes(ms)).mode == Mode::Ground,
        run(s, moves_bytes(ms)).grid == s.grid,
        run(s, moves_bytes(ms)).style == s.style,
    decreases ms.len(),
{
    if ms.len() > 0 {
        let rest = ms.drop_first();
        lemma_run_concat(s, move_bytes(ms[0].0, ms[0].1), moves_bytes(rest));
        lemma_run_move(s, ms[0].0, ms[0].1);
        let s1 = dispatch(s, seq![ms[0].0], ms[0].1);
        assert(s1.saved == s.saved && s1.mode == Mode::Ground && s1.grid == s.grid && s1.style
            == s.style);
        assert(forall|k: int| 0 <= k < rest.len() ==> is_motion(#[trigger] rest[k].1));
        lemma_moves_preserve_saved(s1, rest);
    }
}

/// Saving the cursor, any list of cursor-motion sequences of any kinds
/// and parameters, then restoring, puts the cursor back at exactly the
/// saved position.
pub proof fn lemma_save_moves_restore(s: Vt, ms: Seq<(usize, u8)>)
    requires
        s.mode == Mode::Ground,
        forall|k: int| 0 <= k < ms.len() ==> is_motion(#[trigger] ms[k].1),
    ensures
        run(s, save_bytes() + moves_bytes(ms) + restore_bytes()).cursor == s.cursor,
{
    lemma_moves_preserve_saved(Vt { saved: Some(s.cursor), ..s }, ms);
    lemma_save_any_motion_restore(s, moves_bytes(ms));
}

/// Saving the cursor, moving it with any single cursor-motion sequence
/// (up, down, forward, back or absolute positioning, with any parameter),
/// then restoring it puts the cursor back at exactly the saved position,
/// and leaves the grid and style as the motion left them.
pub proof fn lemma_save_move_restore(s: Vt, n: usize, f: u8)
    requires
        s.wf(),
        s.mode == Mode::Ground,
        f == 0x41 || f == 0x42 || f == 0x43 || f == 0x44 || f == 0x48 || f == 0x66,
    ensures
        ({
            let t = run(s, save_bytes() + move_bytes(n, f) + restore_bytes());
            &&& t.cursor == s.cursor
            &&& t.grid == s.grid
            &&& t.style == s.style
            &&& t.mode == Mode::Ground
        }),
{
    lemma_run_concat(s, save_bytes() + move_bytes(n, f), restore_bytes());
    lemma_run_concat(s, save_bytes(), move_bytes(n, f));
    // Save: ESC 7.
    lemma_run_one(s, 0x1b);
    let e1 = step(s, 0x1b);
    assert(save_bytes().drop_first() =~= seq![0x37u8]);
    assert(run(s, save_bytes()) == run(e1, seq![0x37u8]));
    lemma_run_one(e1, 0x37);
    let s1 = step(e1, 0x37);
    assert(s1 == Vt { saved: Some(s.cursor), mode: Mode::Ground, ..s });
    // The motion: one dispatch, which never touches the saved cursor.
    lemma_run_move(s1, n, f);
    let s2 = dispatch(s1, seq![n], f);
    assert(s2.saved == Some(s.cursor));
    assert(s2.mode == Mode::Ground);
    // Restore: ESC 8.
    lemma_run_one(s2, 0x1b);
    let e2 = step(s2, 0x1b);
    assert(restore_bytes().drop_first() =~= seq![0x38u8]);
    assert(run(s2, restore_bytes()) == run(e2, seq![0x38u8]));
    lemma_run_one(e2, 0x38);
    let t = step(e2, 0x38);
    assert(t.cursor == s.cursor);
}

} // verus!
