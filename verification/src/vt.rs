//! The mathematical model of the terminal: an interpreter state and a total
//! transition function over input bytes.
//!
//! Every executable operation of the crate is specified against `run`, which
//! replays a byte sequence through the state machine one byte at a time.

use vstd::prelude::*;
use crate::position::Position;
use crate::style::Style;
use crate::cell::Cell;

verus! {

/// Parser mode of the escape-sequence state machine.
pub ghost enum Mode {
    /// Plain text.
    Ground,
    /// The last byte was ESC.
    Escape,
    /// Inside a control sequence introduced by `ESC [`, accumulating
    /// semicolon-separated numeric parameters.  `cur` is the parameter being
    /// accumulated; `bad` records that a parameter or intermediate byte
    /// outside the supported grammar was seen, so the sequence is consumed
    /// but dispatches to nothing.
    Csi { params: Seq<usize>, cur: usize, bad: bool },
    /// Inside an operating-system-command string introduced by `ESC ]`
    /// (a window-title set, for instance).  The payload has no effect on
    /// the grid; it is consumed until BEL or the `ESC \` terminator so the
    /// parser does not desynchronize.
    Osc,
    /// Inside an operating-system-command string, right after ESC: a
    /// following `\` terminates the string.
    OscEsc,
}

/// The complete state of a simulated terminal as the interpreter sees it:
/// the grid, the cursor, the saved cursor, the current style register, and
/// the parser mode.
pub ghost struct Vt {
    pub width: nat,
    pub height: nat,
    pub grid: Seq<Cell>,
    pub cursor: Position,
    pub saved: Option<Position>,
    pub style: Style,
    pub mode: Mode,
}

/// The printable ASCII range, written into the grid as literal text.
pub open spec fn printable_byte(b: u8) -> bool {
    0x20 <= b && b <= 0x7e
}

/// Characters that may appear in a well-formed grid.
pub open spec fn printable_char(c: char) -> bool {
    0x20 <= c as u32 && c as u32 <= 0x7e
}

impl Vt {
    /// Well-formedness: the grid has exactly `width * height` cells, the
    /// cursor and any saved cursor lie on the grid, and every cell holds a
    /// printable character.
    pub open spec fn wf(self) -> bool {
        &&& 1 <= self.width
        &&& 1 <= self.height
        &&& self.width * self.height <= usize::MAX
        &&& self.grid.len() == self.width * self.height
        &&& self.cursor.in_bounds(self.width, self.height)
        &&& match self.saved {
            Some(p) => p.in_bounds(self.width, self.height),
            None => true,
        }
        &&& forall|i: int|
            0 <= i < self.grid.len() ==> printable_char(#[trigger] self.grid[i].contents)
    }

    /// The row-major index of the cursor.
    pub open spec fn cursor_index(self) -> int {
        self.cursor.index(self.width)
    }

    /// A blank screen of the given dimensions.
    pub open spec fn blank(width: nat, height: nat) -> Vt {
        Vt {
            width,
            height,
            grid: Seq::new(width * height, |i: int| Cell::blank()),
            cursor: Position::origin(),
            saved: None,
            style: Style::plain(),
            mode: Mode::Ground,
        }
    }
}

/// `p` clamped into a grid of the given dimensions.
pub open spec fn clamp_pos(p: Position, width: nat, height: nat) -> Position {
    Position {
        row: if p.row >= height {
            (height - 1) as usize
        } else {
            p.row
        },
        col: if p.col >= width {
            (width - 1) as usize
        } else {
            p.col
        },
    }
}

/// The grid after a resize: the overlapping top-left region is kept, every
/// other cell is the default cell.
pub open spec fn resize_grid(g: Seq<Cell>, ow: nat, oh: nat, w: nat, h: nat) -> Seq<Cell> {
    Seq::new(
        w * h,
        |i: int|
            {
                let r = i / w as int;
                let c = i % w as int;
                if r < oh && c < ow {
                    g[r * ow + c]
                } else {
                    Cell::blank()
                }
            },
    )
}

/// The same state with the parser back in the ground mode.
pub open spec fn ground(s: Vt) -> Vt {
    Vt { mode: Mode::Ground, ..s }
}

/// The cursor after a character has been written at `p`: one column to the
/// right, wrapping to the start of the next row at the right edge, clamped
/// to the last row (no scrolling is modeled).
pub open spec fn advance(p: Position, width: nat, height: nat) -> Position {
    if p.col + 1 < width {
        Position { row: p.row, col: (p.col + 1) as usize }
    } else if p.row + 1 < height {
        Position { row: (p.row + 1) as usize, col: 0 }
    } else {
        Position { row: p.row, col: 0 }
    }
}

/// Writing one printable byte: the cell under the cursor takes the character
/// with the current style register, and the cursor advances.
pub open spec fn put_char(s: Vt, b: u8) -> Vt {
    Vt {
        grid: s.grid.update(s.cursor_index(), Cell { contents: b as char, style: s.style }),
        cursor: advance(s.cursor, s.width, s.height),
        ..s
    }
}

/// One byte in the ground mode.
pub open spec fn step_ground(s: Vt, b: u8) -> Vt {
    if b == 0x1b {
        Vt { mode: Mode::Escape, ..s }
    } else if printable_byte(b) {
        put_char(s, b)
    } else {
        // Control bytes, and bytes above the ASCII range (multi-byte
        // UTF-8 text is not modeled), are consumed without effect.
        s
    }
}

/// Restoring a never-saved cursor is a no-op.
pub open spec fn restore_cursor(s: Vt) -> Vt {
    match s.saved {
        Some(p) => Vt { cursor: p, mode: Mode::Ground, ..s },
        None => ground(s),
    }
}

/// One byte right after ESC.
pub open spec fn step_escape(s: Vt, b: u8) -> Vt {
    if b == 0x1b {
        // A fresh ESC restarts the escape.
        s
    } else if b == 0x5b {
        // '[' introduces a control sequence.
        Vt { mode: Mode::Csi { params: Seq::empty(), cur: 0, bad: false }, ..s }
    } else if b == 0x5d {
        // ']' introduces an operating-system-command string.
        Vt { mode: Mode::Osc, ..s }
    } else if b == 0x37 {
        // ESC 7: save the cursor.
        Vt { saved: Some(s.cursor), mode: Mode::Ground, ..s }
    } else if b == 0x38 {
        // ESC 8: restore the cursor.
        restore_cursor(s)
    } else {
        // Any other two-byte escape is consumed without effect.
        ground(s)
    }
}

/// Decimal accumulation of a parameter digit, saturating at `usize::MAX`.
pub open spec fn sat10(cur: usize, d: int) -> usize {
    if cur * 10 + d > usize::MAX {
        usize::MAX
    } else {
        (cur * 10 + d) as usize
    }
}

/// The `i`-th parameter, 0 when it was omitted.
pub open spec fn param(ps: Seq<usize>, i: int) -> usize {
    if 0 <= i < ps.len() {
        ps[i]
    } else {
        0
    }
}

/// The `i`-th parameter with an omitted or zero value defaulting to 1.
pub open spec fn param1(ps: Seq<usize>, i: int) -> usize {
    if param(ps, i) == 0 {
        1
    } else {
        param(ps, i)
    }
}

/// `a - n`, clamped at 0.
pub open spec fn sub_clamp(a: usize, n: usize) -> usize {
    if n > a {
        0
    } else {
        (a - n) as usize
    }
}

/// `a + n`, clamped at `lim - 1`.
pub open spec fn add_clamp(a: usize, n: usize, lim: nat) -> usize {
    if a + n >= lim {
        (lim - 1) as usize
    } else {
        (a + n) as usize
    }
}

/// A 1-indexed wire coordinate turned into a 0-indexed one, clamped at
/// `lim - 1`; 0 and 1 both mean the first row or column.
pub open spec fn to_zero_based(p: usize, lim: nat) -> usize {
    let z: int = if p == 0 { 0 } else { p - 1 };
    if z >= lim {
        (lim - 1) as usize
    } else {
        z as usize
    }
}

/// The grid with the cells of `[lo, hi)` reset to the default cell.
pub open spec fn blank_range(g: Seq<Cell>, lo: int, hi: int) -> Seq<Cell> {
    Seq::new(g.len(), |i: int| if lo <= i && i < hi { Cell::blank() } else { g[i] })
}

/// Erase in display: to the end, to the start (inclusive), or the whole
/// grid.  Other parameter values have no effect.  The cursor does not move.
pub open spec fn erase_display(s: Vt, p: usize) -> Vt {
    if p == 0 {
        Vt { grid: blank_range(s.grid, s.cursor_index(), s.grid.len() as int), ..s }
    } else if p == 1 {
        Vt { grid: blank_range(s.grid, 0, s.cursor_index() + 1), ..s }
    } else if p == 2 {
        Vt { grid: blank_range(s.grid, 0, s.grid.len() as int), ..s }
    } else {
        s
    }
}

/// Erase in line: like `erase_display` but confined to the cursor's row.
pub open spec fn erase_line(s: Vt, p: usize) -> Vt {
    let row_start = s.cursor.row * s.width;
    if p == 0 {
        Vt { grid: blank_range(s.grid, s.cursor_index(), row_start + s.width), ..s }
    } else if p == 1 {
        Vt { grid: blank_range(s.grid, row_start, s.cursor_index() + 1), ..s }
    } else if p == 2 {
        Vt { grid: blank_range(s.grid, row_start, row_start + s.width), ..s }
    } else {
        s
    }
}

/// One SGR parameter applied to the style register.
pub open spec fn sgr1(st: Style, code: usize) -> Style {
    if code == 0 {
        Style::plain()
    } else if code == 1 {
        Style { bold: true }
    } else if code == 22 {
        Style { bold: false }
    } else {
        st
    }
}

/// A whole SGR parameter list applied left to right.
pub open spec fn sgr(st: Style, ps: Seq<usize>) -> Style
    decreases ps.len(),
{
    if ps.len() == 0 {
        st
    } else {
        sgr(sgr1(st, ps[0]), ps.drop_first())
    }
}

/// Dispatch on the final byte of a control sequence.  `s` is already back in
/// the ground mode; `ps` holds every accumulated parameter.  Sequences that
/// do not affect the modeled state are consumed without effect.
pub open spec fn dispatch(s: Vt, ps: Seq<usize>, f: u8) -> Vt {
    let n = param1(ps, 0);
    if f == 0x41 {
        // 'A': cursor up.
        Vt { cursor: Position { row: sub_clamp(s.cursor.row, n), col: s.cursor.col }, ..s }
    } else if f == 0x42 {
        // 'B': cursor down.
        Vt { cursor: Position { row: add_clamp(s.cursor.row, n, s.height), col: s.cursor.col }, ..s }
    } else if f == 0x43 {
        // 'C': cursor forward.
        Vt { cursor: Position { row: s.cursor.row, col: add_clamp(s.cursor.col, n, s.width) }, ..s }
    } else if f == 0x44 {
        // 'D': cursor back.
        Vt { cursor: Position { row: s.cursor.row, col: sub_clamp(s.cursor.col, n) }, ..s }
    } else if f == 0x48 || f == 0x66 {
        // 'H' / 'f': absolute positioning, 1-indexed row;col.
        Vt {
            cursor: Position {
                row: to_zero_based(param1(ps, 0), s.height),
                col: to_zero_based(param1(ps, 1), s.width),
            },
            ..s
        }
    } else if f == 0x4a {
        // 'J': erase in display.
        erase_display(s, param(ps, 0))
    } else if f == 0x4b {
        // 'K': erase in line.
        erase_line(s, param(ps, 0))
    } else if f == 0x6d {
        // 'm': select graphic rendition.
        Vt { style: sgr(s.style, ps), ..s }
    } else if f == 0x73 {
        // 's': save the cursor.
        Vt { saved: Some(s.cursor), ..s }
    } else if f == 0x75 {
        // 'u': restore the cursor.
        match s.saved {
            Some(p) => Vt { cursor: p, ..s },
            None => s,
        }
    } else {
        s
    }
}

/// One byte inside a control sequence.
pub open spec fn step_csi(s: Vt, params: Seq<usize>, cur: usize, bad: bool, b: u8) -> Vt {
    if 0x30 <= b && b <= 0x39 {
        // A digit extends the current parameter.
        Vt { mode: Mode::Csi { params, cur: sat10(cur, b - 0x30), bad }, ..s }
    } else if b == 0x3b {
        // ';' finishes the current parameter.
        Vt { mode: Mode::Csi { params: params.push(cur), cur: 0, bad }, ..s }
    } else if 0x20 <= b && b <= 0x3f {
        // Other parameter and intermediate bytes ('?', ':', '<', '=', '>',
        // 0x20-0x2f) mark the sequence unsupported; it is still consumed.
        Vt { mode: Mode::Csi { params, cur, bad: true }, ..s }
    } else if 0x40 <= b && b <= 0x7e {
        // A final byte dispatches the sequence.
        if bad {
            ground(s)
        } else {
            dispatch(ground(s), params.push(cur), b)
        }
    } else {
        // The byte does not fit the control-sequence grammar: abandon the
        // sequence and reinterpret the byte from the ground mode.
        step_ground(ground(s), b)
    }
}

/// One byte inside an operating-system-command string: consumed without
/// effect until BEL or the `ESC \` terminator.
pub open spec fn step_osc(s: Vt, b: u8) -> Vt {
    if b == 0x07 {
        ground(s)
    } else if b == 0x1b {
        Vt { mode: Mode::OscEsc, ..s }
    } else {
        s
    }
}

/// One byte after an ESC seen inside an operating-system-command string:
/// `\` completes the `ESC \` terminator; a fresh ESC may still begin it;
/// any other byte belongs to the payload.
pub open spec fn step_osc_esc(s: Vt, b: u8) -> Vt {
    if b == 0x5c {
        ground(s)
    } else if b == 0x1b {
        s
    } else if b == 0x07 {
        ground(s)
    } else {
        Vt { mode: Mode::Osc, ..s }
    }
}

/// The total transition function: every state has a defined successor for
/// every byte value.
pub open spec fn step(s: Vt, b: u8) -> Vt {
    match s.mode {
        Mode::Ground => step_ground(s, b),
        Mode::Escape => step_escape(s, b),
        Mode::Csi { params, cur, bad } => step_csi(s, params, cur, bad, b),
        Mode::Osc => step_osc(s, b),
        Mode::OscEsc => step_osc_esc(s, b),
    }
}

/// A whole byte sequence replayed through the state machine.
pub open spec fn run(s: Vt, bytes: Seq<u8>) -> Vt
    decreases bytes.len(),
{
    if bytes.len() == 0 {
        s
    } else {
        run(step(s, bytes[0]), bytes.drop_first())
    }
}

/// Whether one step writes a character cell: only a printable byte in the
/// ground mode does.
pub open spec fn writes_char(s: Vt, b: u8) -> bool {
    s.mode == Mode::Ground && printable_byte(b)
}

/// How many cells a replay writes as literal text.  Positioning, style and
/// erase sequences write none.
pub open spec fn char_writes(s: Vt, bytes: Seq<u8>) -> nat
    decreases bytes.len(),
{
    if bytes.len() == 0 {
        0
    } else {
        (if writes_char(s, bytes[0]) {
            1nat
        } else {
            0nat
        }) + char_writes(step(s, bytes[0]), bytes.drop_first())
    }
}

/// Text writes over a concatenation add up.
pub proof fn lemma_char_writes_concat(s: Vt, a: Seq<u8>, b: Seq<u8>)
    ensures
        char_writes(s, a + b) == char_writes(s, a) + char_writes(run(s, a), b),
    decreases a.len(),
{
    if a.len() == 0 {
        assert(a + b =~= b);
    } else {
        assert((a + b)[0] == a[0]);
        assert((a + b).drop_first() =~= a.drop_first() + b);
        lemma_char_writes_concat(step(s, a[0]), a.drop_first(), b);
    }
}

/// One more byte is at most one more text write.
pub proof fn lemma_char_writes_snoc(s: Vt, a: Seq<u8>, b: u8)
    ensures
        char_writes(s, a.push(b)) == char_writes(s, a) + (if writes_char(run(s, a), b) {
            1nat
        } else {
            0nat
        }),
{
    assert(a.push(b) =~= a + seq![b]);
    lemma_char_writes_concat(s, a, seq![b]);
    let t = run(s, a);
    assert(seq![b][0] == b);
    assert(seq![b].drop_first() =~= Seq::<u8>::empty());
    assert(char_writes(step(t, b), seq![b].drop_first()) == 0);
}

/// What a flush leaves behind: the byte queue replayed, and an escape
/// sequence left incomplete at the end of the queue discarded.
pub open spec fn flush_vt(s: Vt, bytes: Seq<u8>) -> Vt {
    ground(run(s, bytes))
}

/// Decimal accumulation saturates exactly when the accumulator has passed
/// one tenth of the largest representable value.
pub proof fn lemma_times10(cur: usize)
    ensures
        cur <= usize::MAX / 10 ==> cur * 10 <= usize::MAX,
        cur > usize::MAX / 10 ==> cur * 10 > usize::MAX,
{
    let m = usize::MAX as int;
    let q = m / 10;
    let r = m % 10;
    vstd::arithmetic::div_mod::lemma_fundamental_div_mod(m, 10);
    vstd::arithmetic::div_mod::lemma_mod_division_less_than_divisor(m, 10);
    assert(m == 10 * q + r);
    if cur <= q {
        assert(cur * 10 <= q * 10) by (nonlinear_arith)
            requires
                cur <= q,
        ;
    } else {
        assert(cur * 10 >= (q + 1) * 10) by (nonlinear_arith)
            requires
                cur >= q + 1,
        ;
    }
}

/// Replaying a concatenation is replaying the parts in order.
pub proof fn lemma_run_concat(s: Vt, a: Seq<u8>, b: Seq<u8>)
    ensures
        run(s, a + b) == run(run(s, a), b),
    decreases a.len(),
{
    if a.len() == 0 {
        assert(a + b =~= b);
    } else {
        assert((a + b)[0] == a[0]);
        assert((a + b).drop_first() =~= a.drop_first() + b);
        lemma_run_concat(step(s, a[0]), a.drop_first(), b);
    }
}

/// Replaying one more byte is one more step.
pub proof fn lemma_run_snoc(s: Vt, a: Seq<u8>, b: u8)
    ensures
        run(s, a.push(b)) == step(run(s, a), b),
{
    assert(a.push(b) =~= a + seq![b]);
    lemma_run_concat(s, a, seq![b]);
    let t = run(s, a);
    assert(seq![b][0] == b);
    assert(run(t, seq![b]) == run(step(t, b), seq![b].drop_first()));
    assert(seq![b].drop_first().len() == 0);
    assert(run(step(t, b), seq![b].drop_first()) == step(t, b));
}

} // verus!
