//! A single-buffered simulated terminal.

use vstd::prelude::*;
use crate::position::Position;
use crate::style::Style;
use crate::cell::Cell;
use crate::vt::{
    Mode, Vt, blank_range, clamp_pos, dispatch, flush_vt, lemma_run_snoc, printable_char,
    put_char, resize_grid, run, sgr, step, step_ground,
};

verus! {

/// A row-major index stays on the grid.
pub proof fn lemma_index_bound(row: int, col: int, w: int, h: int)
    requires
        0 <= row < h,
        0 <= col < w,
    ensures
        0 <= row * w + col < w * h,
{
    assert(row * w + col < w * h) by (nonlinear_arith)
        requires
            0 <= row < h,
            0 <= col < w,
    ;
    assert(0 <= row * w) by (nonlinear_arith)
        requires
            0 <= row,
            0 <= w,
    ;
}

/// A whole row stays on the grid.
pub proof fn lemma_row_end(row: int, w: int, h: int)
    requires
        0 <= row < h,
        0 <= w,
    ensures
        0 <= row * w,
        row * w + w <= h * w,
        row * w + w <= w * h,
{
    assert(row * w + w <= h * w && row * w + w <= w * h) by (nonlinear_arith)
        requires
            0 <= row < h,
            0 <= w,
    ;
    assert(0 <= row * w) by (nonlinear_arith)
        requires
            0 <= row,
            0 <= w,
    ;
}

/// The accumulator for a control sequence in progress.
pub(crate) struct CsiAcc {
    pub params: Vec<usize>,
    pub cur: usize,
    pub bad: bool,
}

/// The executable parser state, local to one flush.
pub(crate) enum Parser {
    Ground,
    Escape,
    Csi(CsiAcc),
    Osc,
    OscEsc,
}

impl Parser {
    /// The parser mode this state stands for.
    pub(crate) open spec fn to_mode(self) -> Mode {
        match self {
            Parser::Ground => Mode::Ground,
            Parser::Escape => Mode::Escape,
            Parser::Csi(a) => Mode::Csi { params: a.params@, cur: a.cur, bad: a.bad },
            Parser::Osc => Mode::Osc,
            Parser::OscEsc => Mode::OscEsc,
        }
    }
}

/// A single-buffered simulated terminal.
///
/// Writing to this will modify it as if it were a terminal, and not as a
/// normal byte buffer.  Written bytes queue up until `flush` interprets
/// them against the grid.
///
/// # Notes
///
/// Not all ANSI codes are supported.  Only codes that modify the contents
/// of the buffer can be simulated.  Actions such as "switch to alternate
/// buffer", "scroll down" or a window-title set will have no effect and
/// will be lost.  Text is ASCII-only: bytes outside the printable ASCII
/// range, multi-byte UTF-8 sequences included, are consumed without
/// touching the grid.
#[derive(Clone, Debug)]
pub struct Ansimulation {
    pub width: usize,
    pub height: usize,
    pub buffer: Vec<Cell>,
    pub saved_cursor: Option<Position>,
    pub current_cursor: Position,
    pub current_style: Style,
    /// Queue of unprocessed input.  Will be processed on call to `flush`.
    pub queue: Vec<u8>,
}

/// The screen together with an explicit parser mode, as one interpreter
/// state.
pub open spec fn vt2(a: Ansimulation, m: Mode) -> Vt {
    Vt {
        width: a.width as nat,
        height: a.height as nat,
        grid: a.buffer@,
        cursor: a.current_cursor,
        saved: a.saved_cursor,
        style: a.current_style,
        mode: m,
    }
}

impl Ansimulation {
    /// The interpreter state this screen stands for, between flushes.
    pub open spec fn vt(self) -> Vt {
        vt2(self, Mode::Ground)
    }

    /// The queued, not yet interpreted bytes.
    pub open spec fn pending(self) -> Seq<u8> {
        self.queue@
    }

    /// The structural invariant of the screen.
    pub open spec fn wf(self) -> bool {
        self.vt().wf()
    }

    /// A blank screen of the given dimensions.
    pub fn new(width: usize, height: usize) -> (r: Ansimulation)
        requires
            1 <= width,
            1 <= height,
            width * height <= usize::MAX,
        ensures
            r.wf(),
            r.vt() == Vt::blank(width as nat, height as nat),
            r.pending() == Seq::<u8>::empty(),
            r.width == width,
            r.height == height,
    {
        let n = width * height;
        let mut buffer: Vec<Cell> = Vec::new();
        let mut i: usize = 0;
        while i < n
            invariant
                i <= n,
                buffer@.len() == i,
                forall|j: int| 0 <= j < i ==> buffer@[j] == Cell::blank(),
            decreases n - i,
        {
            buffer.push(Cell { contents: ' ', style: Style { bold: false } });
            i += 1;
        }
        let r = Ansimulation {
            width,
            height,
            buffer,
            saved_cursor: None,
            current_cursor: Position { row: 0, col: 0 },
            current_style: Style { bold: false },
            queue: Vec::new(),
        };
        proof {
            assert(r.vt().grid =~= Vt::blank(width as nat, height as nat).grid);
            assert(r.vt() == Vt::blank(width as nat, height as nat));
        }
        r
    }

    /// Appends bytes to the pending queue; a pure in-memory append that
    /// accepts every byte and changes nothing else.
    pub fn write(&mut self, buf: &[u8]) -> (n: usize)
        ensures
            n == buf@.len(),
            final(self).pending() == old(self).pending() + buf@,
            final(self).vt() == old(self).vt(),
            final(self).width == old(self).width,
            final(self).height == old(self).height,
    {
        let mut i: usize = 0;
        while i < buf.len()
            invariant
                i <= buf@.len(),
                self.queue@ == old(self).queue@ + buf@.take(i as int),
                self.buffer == old(self).buffer,
                self.width == old(self).width,
                self.height == old(self).height,
                self.current_cursor == old(self).current_cursor,
                self.saved_cursor == old(self).saved_cursor,
                self.current_style == old(self).current_style,
            decreases buf@.len() - i,
        {
            self.queue.push(buf[i]);
            proof {
                assert(old(self).queue@ + buf@.take(i as int) + seq![buf@[i as int]] =~= old(
                    self,
                ).queue@ + buf@.take(i as int + 1));
            }
            i += 1;
        }
        proof {
            assert(buf@.take(buf@.len() as int) =~= buf@);
        }
        i
    }

    /// Whether the structural invariant holds of this screen, decided at
    /// run time so unverified callers can fail fast instead of flushing a
    /// malformed screen.
    pub fn check_invariant(&self) -> (r: bool)
        ensures
            r == self.wf(),
    {
        if self.width < 1 || self.height < 1 {
            return false;
        }
        let n = match self.width.checked_mul(self.height) {
            Some(n) => n,
            None => {
                return false;
            },
        };
        if self.buffer.len() != n {
            return false;
        }
        if !(self.current_cursor.row < self.height && self.current_cursor.col < self.width) {
            return false;
        }
        if let Some(p) = self.saved_cursor {
            if !(p.row < self.height && p.col < self.width) {
                return false;
            }
        }
        let mut i: usize = 0;
        while i < self.buffer.len()
            invariant
                i <= self.buffer@.len(),
                forall|j: int| 0 <= j < i ==> printable_char(#[trigger] self.buffer@[j].contents),
            decreases self.buffer@.len() - i,
        {
            let u = self.buffer[i].contents as u32;
            if u < 0x20 || u > 0x7e {
                return false;
            }
            i += 1;
        }
        true
    }

    /// One byte in the ground mode: ESC opens an escape, printable text is
    /// written at the cursor, other control bytes are consumed.
    fn ground_byte(&mut self, parser: &mut Parser, b: u8)
        requires
            old(parser).to_mode() == Mode::Ground,
            vt2(*old(self), Mode::Ground).wf(),
        ensures
            vt2(*final(self), final(parser).to_mode()) == step_ground(
                vt2(*old(self), Mode::Ground),
                b,
            ),
            vt2(*final(self), final(parser).to_mode()).wf(),
            final(self).queue@ == old(self).queue@,
            final(self).width == old(self).width,
            final(self).height == old(self).height,
    {
        if b == 0x1b {
            *parser = Parser::Escape;
        } else if 0x20 <= b && b <= 0x7e {
            let row = self.current_cursor.row;
            let col = self.current_cursor.col;
            proof {
                lemma_index_bound(row as int, col as int, self.width as int, self.height as int);
            }
            let idx = row * self.width + col;
            self.buffer[idx] = Cell { contents: b as char, style: self.current_style };
            if col + 1 < self.width {
                self.current_cursor.col = col + 1;
            } else if row + 1 < self.height {
                self.current_cursor.row = row + 1;
                self.current_cursor.col = 0;
            } else {
                self.current_cursor.col = 0;
            }
            proof {
                assert((b as char) as u32 == b as u32);
                assert(vt2(*self, parser.to_mode()) == put_char(vt2(*old(self), Mode::Ground), b));
            }
        } else {
            // No effect.
        }
    }

    /// Resets the cells of `[lo, hi)` to the default cell.
    fn blank_cells(&mut self, lo: usize, hi: usize)
        requires
            lo <= hi,
            hi <= old(self).buffer@.len(),
        ensures
            final(self).buffer@ == blank_range(old(self).buffer@, lo as int, hi as int),
            final(self).width == old(self).width,
            final(self).height == old(self).height,
            final(self).current_cursor == old(self).current_cursor,
            final(self).saved_cursor == old(self).saved_cursor,
            final(self).current_style == old(self).current_style,
            final(self).queue@ == old(self).queue@,
    {
        let mut j = lo;
        proof {
            assert(self.buffer@ =~= blank_range(old(self).buffer@, lo as int, lo as int));
        }
        while j < hi
            invariant
                lo <= j <= hi,
                hi <= self.buffer@.len(),
                self.buffer@ == blank_range(old(self).buffer@, lo as int, j as int),
                self.width == old(self).width,
                self.height == old(self).height,
                self.current_cursor == old(self).current_cursor,
                self.saved_cursor == old(self).saved_cursor,
                self.current_style == old(self).current_style,
                self.queue@ == old(self).queue@,
            decreases hi - j,
        {
            self.buffer[j] = Cell { contents: ' ', style: Style { bold: false } };
            proof {
                assert(self.buffer@ =~= blank_range(old(self).buffer@, lo as int, j as int + 1));
            }
            j += 1;
        }
    }

    /// Applies a finished control sequence to the screen.
    fn dispatch_byte(&mut self, ps: &Vec<usize>, f: u8)
        requires
            vt2(*old(self), Mode::Ground).wf(),
            0x40 <= f <= 0x7e,
        ensures
            vt2(*final(self), Mode::Ground) == dispatch(vt2(*old(self), Mode::Ground), ps@, f),
            vt2(*final(self), Mode::Ground).wf(),
            final(self).queue@ == old(self).queue@,
            final(self).width == old(self).width,
            final(self).height == old(self).height,
    {
        let p0 = if ps.len() >= 1 {
            ps[0]
        } else {
            0
        };
        let n = if p0 == 0 {
            1
        } else {
            p0
        };
        let row = self.current_cursor.row;
        let col = self.current_cursor.col;
        if f == 0x41 {
            self.current_cursor.row = if n > row {
                0
            } else {
                row - n
            };
        } else if f == 0x42 {
            self.current_cursor.row = if n >= self.height - row {
                self.height - 1
            } else {
                row + n
            };
        } else if f == 0x43 {
            self.current_cursor.col = if n >= self.width - col {
                self.width - 1
            } else {
                col + n
            };
        } else if f == 0x44 {
            self.current_cursor.col = if n > col {
                0
            } else {
                col - n
            };
        } else if f == 0x48 || f == 0x66 {
            let p1 = if ps.len() >= 2 {
                ps[1]
            } else {
                0
            };
            let m = if p1 == 0 {
                1
            } else {
                p1
            };
            let zr = n - 1;
            let zc = m - 1;
            self.current_cursor.row = if zr >= self.height {
                self.height - 1
            } else {
                zr
            };
            self.current_cursor.col = if zc >= self.width {
                self.width - 1
            } else {
                zc
            };
        } else if f == 0x4a {
            proof {
                lemma_index_bound(row as int, col as int, self.width as int, self.height as int);
            }
            let ci = row * self.width + col;
            let len = self.buffer.len();
            if p0 == 0 {
                self.blank_cells(ci, len);
            } else if p0 == 1 {
                self.blank_cells(0, ci + 1);
            } else if p0 == 2 {
                self.blank_cells(0, len);
            }
        } else if f == 0x4b {
            proof {
                lemma_index_bound(row as int, col as int, self.width as int, self.height as int);
                lemma_row_end(row as int, self.width as int, self.height as int);
            }
            let rs = row * self.width;
            assert(rs + self.width <= self.buffer@.len());
            let ci = rs + col;
            if p0 == 0 {
                self.blank_cells(ci, rs + self.width);
            } else if p0 == 1 {
                self.blank_cells(rs, ci + 1);
            } else if p0 == 2 {
                self.blank_cells(rs, rs + self.width);
            }
        } else if f == 0x6d {
            let mut st = self.current_style;
            let mut k: usize = 0;
            proof {
                assert(ps@.skip(0) =~= ps@);
            }
            while k < ps.len()
                invariant
                    k <= ps@.len(),
                    sgr(st, ps@.skip(k as int)) == sgr(self.current_style, ps@),
                    self == old(self),
                decreases ps@.len() - k,
            {
                let code = ps[k];
                proof {
                    assert(ps@.skip(k as int)[0] == ps@[k as int]);
                    assert(ps@.skip(k as int).drop_first() =~= ps@.skip(k as int + 1));
                }
                st =
                if code == 0 {
                    Style { bold: false }
                } else if code == 1 {
                    Style { bold: true }
                } else if code == 22 {
                    Style { bold: false }
                } else {
                    st
                };
                k += 1;
            }
            self.current_style = st;
        } else if f == 0x73 {
            self.saved_cursor = Some(self.current_cursor);
        } else if f == 0x75 {
            if let Some(p) = self.saved_cursor {
                self.current_cursor = p;
            }
        } else {
            // A recognized-but-unsupported final byte: consumed, no effect.
        }
    }

    /// One byte against the full interpreter state.
    fn step_byte(&mut self, parser: &mut Parser, b: u8)
        requires
            vt2(*old(self), old(parser).to_mode()).wf(),
        ensures
            vt2(*final(self), final(parser).to_mode()) == step(
                vt2(*old(self), old(parser).to_mode()),
                b,
            ),
            vt2(*final(self), final(parser).to_mode()).wf(),
            final(self).queue@ == old(self).queue@,
            final(self).width == old(self).width,
            final(self).height == old(self).height,
    {
        let mut taken = Parser::Ground;
        core::mem::swap(parser, &mut taken);
        match taken {
            Parser::Ground => {
                self.ground_byte(parser, b);
            },
            Parser::Escape => {
                if b == 0x1b {
                    *parser = Parser::Escape;
                } else if b == 0x5b {
                    let acc = CsiAcc { params: Vec::new(), cur: 0, bad: false };
                    proof {
                        assert(acc.params@ =~= Seq::<usize>::empty());
                    }
                    *parser = Parser::Csi(acc);
                } else if b == 0x5d {
                    *parser = Parser::Osc;
                } else if b == 0x37 {
                    self.saved_cursor = Some(self.current_cursor);
                } else if b == 0x38 {
                    if let Some(p) = self.saved_cursor {
                        self.current_cursor = p;
                    }
                } else {
                    // Any other two-byte escape is consumed without effect.
                }
            },
            Parser::Csi(mut acc) => {
                if 0x30 <= b && b <= 0x39 {
                    let d = (b - 0x30) as usize;
                    proof {
                        crate::vt::lemma_times10(acc.cur);
                    }
                    acc.cur =
                    if acc.cur > usize::MAX / 10 {
                        usize::MAX
                    } else if d > usize::MAX - acc.cur * 10 {
                        usize::MAX
                    } else {
                        acc.cur * 10 + d
                    };
                    *parser = Parser::Csi(acc);
                } else if b == 0x3b {
                    acc.params.push(acc.cur);
                    acc.cur = 0;
                    *parser = Parser::Csi(acc);
                } else if 0x20 <= b && b <= 0x3f {
                    acc.bad = true;
                    *parser = Parser::Csi(acc);
                } else if 0x40 <= b && b <= 0x7e {
                    if !acc.bad {
                        acc.params.push(acc.cur);
                        self.dispatch_byte(&acc.params, b);
                    }
                } else {
                    self.ground_byte(parser, b);
                }
            },
            Parser::Osc => {
                if b == 0x07 {
                    // BEL ends the string; the parser is already ground.
                } else if b == 0x1b {
                    *parser = Parser::OscEsc;
                } else {
                    *parser = Parser::Osc;
                }
            },
            Parser::OscEsc => {
                if b == 0x5c {
                    // The `ESC \` terminator; the parser is already ground.
                } else if b == 0x1b {
                    *parser = Parser::OscEsc;
                } else if b == 0x07 {
                    // BEL ends the string even after a stray ESC.
                } else {
                    *parser = Parser::Osc;
                }
            },
        }
    }

    /// Interprets every pending byte in order against the grid, the cursor
    /// and the style register, and leaves the queue empty.  Malformed or
    /// unsupported input never fails: every byte is consumed exactly once.
    /// The call reports failure only when the structural invariant does not
    /// hold, in which case the screen is left untouched.
    pub fn flush(&mut self) -> (r: bool)
        ensures
            r == old(self).wf(),
            old(self).wf() ==> {
                &&& final(self).wf()
                &&& final(self).vt() == flush_vt(old(self).vt(), old(self).pending())
                &&& final(self).pending() == Seq::<u8>::empty()
                &&& final(self).width == old(self).width
                &&& final(self).height == old(self).height
            },
            !old(self).wf() ==> {
                &&& final(self).vt() == old(self).vt()
                &&& final(self).pending() == old(self).pending()
                &&& final(self).width == old(self).width
                &&& final(self).height == old(self).height
            },
    {
        if !self.check_invariant() {
            return false;
        }
        let ghost s0 = self.vt();
        let ghost q = self.queue@;
        let mut parser = Parser::Ground;
        let mut i: usize = 0;
        proof {
            assert(q.take(0) =~= Seq::<u8>::empty());
        }
        while i < self.queue.len()
            invariant
                i <= self.queue@.len(),
                self.queue@ == q,
                self.width == old(self).width,
                self.height == old(self).height,
                vt2(*self, parser.to_mode()) == run(s0, q.take(i as int)),
                vt2(*self, parser.to_mode()).wf(),
            decreases self.queue@.len() - i,
        {
            let b = self.queue[i];
            proof {
                lemma_run_snoc(s0, q.take(i as int), b);
                assert(q.take(i as int).push(b) =~= q.take(i as int + 1));
            }
            self.step_byte(&mut parser, b);
            i += 1;
        }
        proof {
            assert(q.take(q.len() as int) =~= q);
        }
        self.queue.clear();
        proof {
            assert(self.queue@ =~= Seq::<u8>::empty());
            assert(self.vt() == flush_vt(s0, q));
        }
        true
    }

    /// Resizes the grid, keeping the overlapping top-left region and
    /// blanking every new cell; the cursor and any saved cursor are clamped
    /// into the new bounds, and pending bytes are kept for the next flush.
    pub fn resize(&mut self, width: usize, height: usize)
        requires
            old(self).wf(),
            1 <= width,
            1 <= height,
            width * height <= usize::MAX,
        ensures
            final(self).wf(),
            final(self).width == width,
            final(self).height == height,
            final(self).vt().grid == resize_grid(
                old(self).vt().grid,
                old(self).width as nat,
                old(self).height as nat,
                width as nat,
                height as nat,
            ),
            final(self).vt().cursor == clamp_pos(
                old(self).vt().cursor,
                width as nat,
                height as nat,
            ),
            final(self).vt().saved == (match old(self).vt().saved {
                Some(p) => Some(clamp_pos(p, width as nat, height as nat)),
                None => None::<Position>,
            }),
            final(self).vt().style == old(self).vt().style,
            final(self).pending() == old(self).pending(),
    {
        let ghost target = resize_grid(
            old(self).vt().grid,
            old(self).width as nat,
            old(self).height as nat,
            width as nat,
            height as nat,
        );
        let mut buffer: Vec<Cell> = Vec::new();
        let mut r: usize = 0;
        while r < height
            invariant
                r <= height,
                self == old(self),
                self.wf(),
                1 <= width,
                1 <= height,
                width * height <= usize::MAX,
                target == resize_grid(
                    self.vt().grid,
                    self.width as nat,
                    self.height as nat,
                    width as nat,
                    height as nat,
                ),
                buffer@.len() == r * width,
                forall|i: int| 0 <= i < r * width ==> buffer@[i] == target[i],
            decreases height - r,
        {
            let mut c: usize = 0;
            proof {
                lemma_row_end(r as int, width as int, height as int);
            }
            while c < width
                invariant
                    c <= width,
                    r < height,
                    self == old(self),
                    self.wf(),
                    1 <= width,
                    1 <= height,
                    width * height <= usize::MAX,
                    r * width + width <= width * height,
                    target == resize_grid(
                        self.vt().grid,
                        self.width as nat,
                        self.height as nat,
                        width as nat,
                        height as nat,
                    ),
                    buffer@.len() == r * width + c,
                    forall|i: int| 0 <= i < r * width + c ==> buffer@[i] == target[i],
                decreases width - c,
            {
                let cell = if r < self.height && c < self.width {
                    proof {
                        lemma_index_bound(
                            r as int,
                            c as int,
                            self.width as int,
                            self.height as int,
                        );
                    }
                    self.buffer[r * self.width + c]
                } else {
                    Cell { contents: ' ', style: Style { bold: false } }
                };
                buffer.push(cell);
                proof {
                    let i = r * width + c;
                    lemma_index_bound(r as int, c as int, width as int, height as int);
                    vstd::arithmetic::div_mod::lemma_fundamental_div_mod_converse(
                        i as int,
                        width as int,
                        r as int,
                        c as int,
                    );
                    assert(target[i as int] == cell);
                }
                c += 1;
            }
            proof {
                assert((r + 1) * width == r * width + width) by (nonlinear_arith);
            }
            r += 1;
        }
        proof {
            assert((height * width) as int == (width * height) as int);
            assert(buffer@ =~= target);
        }
        self.buffer = buffer;
        self.width = width;
        self.height = height;
        if self.current_cursor.row >= height {
            self.current_cursor.row = height - 1;
        }
        if self.current_cursor.col >= width {
            self.current_cursor.col = width - 1;
        }
        if let Some(p) = self.saved_cursor {
            let row = if p.row >= height {
                height - 1
            } else {
                p.row
            };
            let col = if p.col >= width {
                width - 1
            } else {
                p.col
            };
            self.saved_cursor = Some(Position { row, col });
        }
        proof {
            assert forall|i: int| 0 <= i < self.buffer@.len() implies printable_char(
                #[trigger] self.buffer@[i].contents,
            ) by {
                assert(self.buffer@[i] == target[i]);
                let wn = width as int;
                let rr = i / wn;
                let cc = i % wn;
                vstd::arithmetic::div_mod::lemma_mod_division_less_than_divisor(i, wn);
                vstd::arithmetic::div_mod::lemma_div_pos_is_pos(i, wn);
                if rr < old(self).height as int && cc < old(self).width as int {
                    lemma_index_bound(rr, cc, old(self).width as int, old(self).height as int);
                    assert(target[i] == old(self).buffer@[rr * old(self).width as int + cc]);
                } else {
                    assert(target[i] == Cell::blank());
                }
            }
        }
    }

    /// Makes this screen an exact copy of the other's flushed state: grid,
    /// cursor, saved cursor and style register, with an empty queue.
    pub fn copy_from(&mut self, other: &Ansimulation)
        ensures
            final(self).vt() == other.vt(),
            final(self).pending() == Seq::<u8>::empty(),
            final(self).width == other.width,
            final(self).height == other.height,
    {
        self.width = other.width;
        self.height = other.height;
        let mut buffer: Vec<Cell> = Vec::new();
        let mut i: usize = 0;
        while i < other.buffer.len()
            invariant
                i <= other.buffer@.len(),
                buffer@ == other.buffer@.take(i as int),
            decreases other.buffer@.len() - i,
        {
            buffer.push(other.buffer[i]);
            proof {
                assert(other.buffer@.take(i as int).push(other.buffer@[i as int]) =~= other
                    .buffer@
                    .take(i as int + 1));
            }
            i += 1;
        }
        proof {
            assert(other.buffer@.take(other.buffer@.len() as int) =~= other.buffer@);
        }
        self.buffer = buffer;
        self.saved_cursor = other.saved_cursor;
        self.current_cursor = other.current_cursor;
        self.current_style = other.current_style;
        // The other queue is assumed flushed; this screen starts clean.
        self.queue.clear();
    }
}

} // verus!
