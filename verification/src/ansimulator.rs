//! A double buffered ANSI code simulator.

use vstd::prelude::*;
use crate::ansimulation::Ansimulation;
use crate::cell::Cell;
use crate::position::Position;
use crate::vt::{Mode, Vt, flush_vt, lemma_run_concat, lemma_run_snoc, printable_char, run};
use crate::vt::{char_writes, lemma_char_writes_concat, lemma_char_writes_snoc};
use crate::emit::{
    cup_bytes, dec_len, emit_cup, emit_move, emit_sgr, lemma_run_cup, lemma_run_move,
    lemma_run_sgr, move_bytes, sgr_bytes,
};

verus! {

/// Cells `[0, k)` taken from `b`, the rest from `a`: the grid after the
/// first `k` cells of the diff have been applied.
pub open spec fn merge(a: Seq<Cell>, b: Seq<Cell>, k: int) -> Seq<Cell> {
    Seq::new(a.len(), |i: int| if i < k { b[i] } else { a[i] })
}

/// How many of the first `k` cells differ between the two grids.
pub open spec fn count_diffs(a: Seq<Cell>, b: Seq<Cell>, k: int) -> nat
    decreases k,
{
    if k <= 0 {
        0
    } else {
        count_diffs(a, b, k - 1) + (if a[k - 1] == b[k - 1] {
            0nat
        } else {
            1nat
        })
    }
}

/// Double buffered ANSI code simulator, allowing for writes to be optimized
/// before being relayed to an actual output device.
///
/// Writing to this will modify it as if it were a terminal, and not as a
/// normal byte buffer.
///
/// # Notes
///
/// Not all ANSI codes are supported.  Only codes that modify the contents
/// of the buffer can be simulated.  Actions such as "switch to alternate
/// buffer" or "scroll down" will have no effect and will be lost.
#[derive(Clone, Debug)]
pub struct Ansimulator {
    /// The internal buffer, the last committed state, used for diffs.
    pub inner: Ansimulation,
    /// The outer buffer, used as a scratchpad for writing.
    pub outer: Ansimulation,
}

/// Appends one positioning sequence that brings the replay cursor from
/// `(vrow, vcol)` to `(r, c)`.  A move along the shared row or column is
/// chosen when its byte cost is strictly smaller than the absolute
/// jump's; ties, diagonal moves, and everything before the first emitted
/// sequence (`synced` false) go to absolute positioning, for determinism.
/// No positioning sequence writes a character cell.
fn emit_position(
    out: &mut Vec<u8>,
    Ghost(s0): Ghost<Vt>,
    synced: bool,
    vrow: usize,
    vcol: usize,
    r: usize,
    c: usize,
)
    requires
        ({
            let st = run(s0, old(out)@);
            &&& st.mode == Mode::Ground
            &&& st.cursor == Position { row: vrow, col: vcol }
            &&& (r as nat) < st.height
            &&& (c as nat) < st.width
            &&& st.height <= usize::MAX
            &&& st.width <= usize::MAX
        }),
    ensures
        run(s0, final(out)@) == (Vt {
            cursor: Position { row: r, col: c },
            ..run(s0, old(out)@)
        }),
        char_writes(s0, final(out)@) == char_writes(s0, old(out)@),
{
    // `ESC [ n X` costs 3 bytes plus the digits of n; `ESC [ a ; b H`
    // costs 4 plus the digits of both 1-indexed coordinates.
    let abs_cost = dec_len(r + 1).saturating_add(dec_len(c + 1)).saturating_add(4);
    if synced && vrow == r && vcol < c && dec_len(c - vcol).saturating_add(3) < abs_cost {
        let n = c - vcol;
        emit_move(out, n, 0x43);
        proof {
            lemma_run_concat(s0, old(out)@, move_bytes(n, 0x43));
            lemma_char_writes_concat(s0, old(out)@, move_bytes(n, 0x43));
            lemma_run_move(run(s0, old(out)@), n, 0x43);
            assert(seq![n][0] == n);
        }
    } else if synced && vrow == r && c < vcol && dec_len(vcol - c).saturating_add(3) < abs_cost {
        let n = vcol - c;
        emit_move(out, n, 0x44);
        proof {
            lemma_run_concat(s0, old(out)@, move_bytes(n, 0x44));
            lemma_char_writes_concat(s0, old(out)@, move_bytes(n, 0x44));
            lemma_run_move(run(s0, old(out)@), n, 0x44);
            assert(seq![n][0] == n);
        }
    } else if synced && vcol == c && vrow < r && dec_len(r - vrow).saturating_add(3) < abs_cost {
        let n = r - vrow;
        emit_move(out, n, 0x42);
        proof {
            lemma_run_concat(s0, old(out)@, move_bytes(n, 0x42));
            lemma_char_writes_concat(s0, old(out)@, move_bytes(n, 0x42));
            lemma_run_move(run(s0, old(out)@), n, 0x42);
            assert(seq![n][0] == n);
        }
    } else if synced && vcol == c && r < vrow && dec_len(vrow - r).saturating_add(3) < abs_cost {
        let n = vrow - r;
        emit_move(out, n, 0x41);
        proof {
            lemma_run_concat(s0, old(out)@, move_bytes(n, 0x41));
            lemma_char_writes_concat(s0, old(out)@, move_bytes(n, 0x41));
            lemma_run_move(run(s0, old(out)@), n, 0x41);
            assert(seq![n][0] == n);
        }
    } else {
        emit_cup(out, r, c);
        proof {
            lemma_run_concat(s0, old(out)@, cup_bytes(r, c));
            lemma_char_writes_concat(s0, old(out)@, cup_bytes(r, c));
            lemma_run_cup(run(s0, old(out)@), r, c);
        }
    }
}

/// The bytes that transform the visible state of `inner` into the visible
/// state of `outer`: replayed from `inner`'s exact state they rebuild
/// `outer`'s grid and cursor; they are empty when nothing differs; and
/// they write exactly one character per differing cell, so unchanged
/// cells are skipped by positioning, never rewritten.
#[verifier::rlimit(100)]
fn diff(inner: &Ansimulation, outer: &Ansimulation) -> (r: Vec<u8>)
    requires
        inner.wf(),
        outer.wf(),
        inner.width == outer.width,
        inner.height == outer.height,
    ensures
        run(inner.vt(), r@).grid == outer.vt().grid,
        run(inner.vt(), r@).cursor == outer.vt().cursor,
        (inner.vt().grid == outer.vt().grid && inner.vt().cursor == outer.vt().cursor) ==> r@
            == Seq::<u8>::empty(),
        char_writes(inner.vt(), r@) == count_diffs(
            inner.vt().grid,
            outer.vt().grid,
            inner.vt().grid.len() as int,
        ),
{
    let w = inner.width;
    let h = inner.height;
    assert((w * h) as int == (w as nat * h as nat) as int);
    let n = w * h;
    let ghost s0 = inner.vt();
    let mut out: Vec<u8> = Vec::new();
    let mut vrow = inner.current_cursor.row;
    let mut vcol = inner.current_cursor.col;
    let mut vstyle = inner.current_style;
    let mut synced = false;
    let mut i: usize = 0;
    proof {
        assert(out@ =~= Seq::<u8>::empty());
        assert(merge(inner.buffer@, outer.buffer@, 0) =~= inner.buffer@);
        assert(run(s0, out@) == s0);
        assert(char_writes(s0, out@) == 0);
    }
    while i < n
        invariant
            i <= n,
            w == inner.width,
            h == inner.height,
            n == w * h,
            inner.wf(),
            outer.wf(),
            inner.width == outer.width,
            inner.height == outer.height,
            s0 == inner.vt(),
            n == inner.buffer@.len(),
            n == outer.buffer@.len(),
            vrow < h,
            vcol < w,
            run(s0, out@) == (Vt {
                width: w as nat,
                height: h as nat,
                grid: merge(inner.buffer@, outer.buffer@, i as int),
                cursor: Position { row: vrow, col: vcol },
                saved: s0.saved,
                style: vstyle,
                mode: Mode::Ground,
            }),
            (forall|j: int| 0 <= j < i ==> inner.buffer@[j] == outer.buffer@[j]) ==> (out@
                == Seq::<u8>::empty() && vrow == inner.current_cursor.row && vcol
                == inner.current_cursor.col && vstyle == inner.current_style),
            char_writes(s0, out@) == count_diffs(inner.buffer@, outer.buffer@, i as int),
        decreases n - i,
    {
        if inner.buffer[i] == outer.buffer[i] {
            proof {
                assert(merge(inner.buffer@, outer.buffer@, i as int) =~= merge(
                    inner.buffer@,
                    outer.buffer@,
                    i as int + 1,
                ));
            }
            i += 1;
        } else {
            let r = i / w;
            let c = i % w;
            proof {
                vstd::arithmetic::div_mod::lemma_fundamental_div_mod(i as int, w as int);
                vstd::arithmetic::div_mod::lemma_mod_division_less_than_divisor(i as int, w as int);
                assert(i as int == w as int * (r as int) + c as int);
                assert(r as int * (w as int) + c as int == i as int) by (nonlinear_arith)
                    requires
                        i as int == (w as int) * (r as int) + (c as int),
                ;
                assert(r < h) by (nonlinear_arith)
                    requires
                        (i as int) < (w as int) * (h as int),
                        i as int == (w as int) * (r as int) + (c as int),
                        0 <= c as int,
                        0 <= r as int,
                        1 <= w as int,
                ;
            }
            if !synced || vrow != r || vcol != c {
                emit_position(&mut out, Ghost(s0), synced, vrow, vcol, r, c);
                vrow = r;
                vcol = c;
                synced = true;
            }
            proof {
                assert(run(s0, out@) == (Vt {
                    width: w as nat,
                    height: h as nat,
                    grid: merge(inner.buffer@, outer.buffer@, i as int),
                    cursor: Position { row: r, col: c },
                    saved: s0.saved,
                    style: vstyle,
                    mode: Mode::Ground,
                }));
            }
            let target = outer.buffer[i];
            if !(vstyle == target.style) {
                let ghost out1 = out@;
                emit_sgr(&mut out, &target.style);
                proof {
                    lemma_run_concat(s0, out1, sgr_bytes(target.style));
                    lemma_char_writes_concat(s0, out1, sgr_bytes(target.style));
                    lemma_run_sgr(run(s0, out1), target.style);
                }
                vstyle = target.style;
            }
            proof {
                assert(run(s0, out@) == (Vt {
                    width: w as nat,
                    height: h as nat,
                    grid: merge(inner.buffer@, outer.buffer@, i as int),
                    cursor: Position { row: r, col: c },
                    saved: s0.saved,
                    style: target.style,
                    mode: Mode::Ground,
                }));
            }
            let u = target.contents as u32;
            assert(printable_char(target.contents));
            let b = u as u8;
            let ghost out2 = out@;
            out.push(b);
            proof {
                lemma_run_snoc(s0, out2, b);
                lemma_char_writes_snoc(s0, out2, b);
                let pre = run(s0, out2);
                assert((b as char) as u32 == target.contents as u32);
                assert(b as char == target.contents);
                assert(pre.cursor == Position { row: r, col: c });
                assert(pre.cursor_index() == i as int);
                assert(pre.grid.update(
                    i as int,
                    Cell { contents: b as char, style: vstyle },
                ) =~= merge(inner.buffer@, outer.buffer@, i as int + 1));
            }
            if vcol + 1 < w {
                vcol = vcol + 1;
            } else if vrow + 1 < h {
                vrow = vrow + 1;
                vcol = 0;
            } else {
                vcol = 0;
            }
            i += 1;
        }
    }
    proof {
        assert(merge(inner.buffer@, outer.buffer@, n as int) =~= outer.buffer@);
    }
    if vrow != outer.current_cursor.row || vcol != outer.current_cursor.col {
        emit_position(
            &mut out,
            Ghost(s0),
            synced,
            vrow,
            vcol,
            outer.current_cursor.row,
            outer.current_cursor.col,
        );
    }
    out
}

impl Ansimulator {
    /// Both screens are well formed, share their dimensions, and the
    /// committed screen never holds pending bytes.
    pub open spec fn wf(self) -> bool {
        &&& self.inner.wf()
        &&& self.outer.wf()
        &&& self.inner.width == self.outer.width
        &&& self.inner.height == self.outer.height
        &&& self.inner.pending() == Seq::<u8>::empty()
    }

    /// A simulator over two blank screens of the given dimensions.
    pub fn new(width: usize, height: usize) -> (r: Ansimulator)
        requires
            1 <= width,
            1 <= height,
            width * height <= usize::MAX,
        ensures
            r.wf(),
            r.inner.vt() == Vt::blank(width as nat, height as nat),
            r.outer.vt() == Vt::blank(width as nat, height as nat),
            r.outer.pending() == Seq::<u8>::empty(),
            r.inner.width == width,
            r.inner.height == height,
    {
        Ansimulator { inner: Ansimulation::new(width, height), outer: Ansimulation::new(width, height) }
    }

    /// Appends bytes to the outer screen's queue; the committed screen is
    /// untouched.
    pub fn write(&mut self, buf: &[u8]) -> (n: usize)
        ensures
            n == buf@.len(),
            final(self).outer.pending() == old(self).outer.pending() + buf@,
            final(self).outer.vt() == old(self).outer.vt(),
            final(self).outer.width == old(self).outer.width,
            final(self).outer.height == old(self).outer.height,
            final(self).inner == old(self).inner,
    {
        self.outer.write(buf)
    }

    /// Flushes the outer screen: interprets its queued bytes.  Reports
    /// failure only when the outer screen's invariant does not hold, and
    /// then changes nothing.
    pub fn flush(&mut self) -> (r: bool)
        ensures
            r == old(self).outer.wf(),
            old(self).outer.wf() ==> {
                &&& final(self).outer.wf()
                &&& final(self).outer.vt() == flush_vt(
                    old(self).outer.vt(),
                    old(self).outer.pending(),
                )
                &&& final(self).outer.pending() == Seq::<u8>::empty()
                &&& final(self).outer.width == old(self).outer.width
                &&& final(self).outer.height == old(self).outer.height
            },
            !old(self).outer.wf() ==> {
                &&& final(self).outer.vt() == old(self).outer.vt()
                &&& final(self).outer.pending() == old(self).outer.pending()
                &&& final(self).outer.width == old(self).outer.width
                &&& final(self).outer.height == old(self).outer.height
            },
            final(self).inner == old(self).inner,
    {
        self.outer.flush()
    }

    /// Resizes both screens to the same new dimensions, keeping their
    /// overlapping top-left regions and clamping their cursors.
    pub fn resize(&mut self, width: usize, height: usize)
        requires
            old(self).wf(),
            1 <= width,
            1 <= height,
            width * height <= usize::MAX,
        ensures
            final(self).wf(),
            final(self).inner.width == width,
            final(self).inner.height == height,
            final(self).inner.vt().grid == crate::vt::resize_grid(
                old(self).inner.vt().grid,
                old(self).inner.width as nat,
                old(self).inner.height as nat,
                width as nat,
                height as nat,
            ),
            final(self).outer.vt().grid == crate::vt::resize_grid(
                old(self).outer.vt().grid,
                old(self).outer.width as nat,
                old(self).outer.height as nat,
                width as nat,
                height as nat,
            ),
            final(self).inner.vt().cursor == crate::vt::clamp_pos(
                old(self).inner.vt().cursor,
                width as nat,
                height as nat,
            ),
            final(self).outer.vt().cursor == crate::vt::clamp_pos(
                old(self).outer.vt().cursor,
                width as nat,
                height as nat,
            ),
            final(self).inner.vt().saved == (match old(self).inner.vt().saved {
                Some(p) => Some(crate::vt::clamp_pos(p, width as nat, height as nat)),
                None => None::<Position>,
            }),
            final(self).outer.vt().saved == (match old(self).outer.vt().saved {
                Some(p) => Some(crate::vt::clamp_pos(p, width as nat, height as nat)),
                None => None::<Position>,
            }),
            final(self).inner.vt().style == old(self).inner.vt().style,
            final(self).outer.vt().style == old(self).outer.vt().style,
            final(self).inner.pending() == Seq::<u8>::empty(),
            final(self).outer.pending() == old(self).outer.pending(),
    {
        self.inner.resize(width, height);
        self.outer.resize(width, height);
    }

    /// Flips the simulation buffers, returning the optimized ANSI codes
    /// required to convert from one to the other.
    ///
    /// Any bytes still pending on the outer screen are flushed first.  The
    /// returned bytes, replayed from the committed screen's exact state,
    /// rebuild the outer screen's grid and final cursor position; they are
    /// empty when nothing differs; and they write exactly one character
    /// per differing cell, so unchanged cells are skipped by positioning,
    /// never rewritten.  The outer screen's flushed state is then
    /// committed as the new baseline.
    pub fn flip(&mut self) -> (r: Vec<u8>)
        requires
            old(self).wf(),
        ensures
            final(self).wf(),
            final(self).outer.vt() == flush_vt(old(self).outer.vt(), old(self).outer.pending()),
            final(self).outer.pending() == Seq::<u8>::empty(),
            final(self).inner.vt() == final(self).outer.vt(),
            final(self).inner.pending() == Seq::<u8>::empty(),
            final(self).inner.width == old(self).inner.width,
            final(self).inner.height == old(self).inner.height,
            run(old(self).inner.vt(), r@).grid == final(self).outer.vt().grid,
            run(old(self).inner.vt(), r@).cursor == final(self).outer.vt().cursor,
            (old(self).inner.vt().grid == final(self).outer.vt().grid && old(
                self,
            ).inner.vt().cursor == final(self).outer.vt().cursor) ==> r@ == Seq::<u8>::empty(),
            char_writes(old(self).inner.vt(), r@) == count_diffs(
                old(self).inner.vt().grid,
                final(self).outer.vt().grid,
                old(self).inner.vt().grid.len() as int,
            ),
    {
        let _flushed = self.outer.flush();
        let bytes = diff(&self.inner, &self.outer);
        self.inner.copy_from(&self.outer);
        bytes
    }

    /// Like `flip`, but deciding the structural invariant at run time: a
    /// simulator whose screens hold mismatched dimensions (a
    /// programming-error class failure, unreachable through this crate's
    /// constructors) is reported at once with `None` and left untouched,
    /// never answered with a corrupt byte sequence.
    pub fn checked_flip(&mut self) -> (r: Option<Vec<u8>>)
        ensures
            r is Some <==> old(self).wf(),
            old(self).wf() ==> {
                &&& final(self).wf()
                &&& final(self).outer.vt() == flush_vt(
                    old(self).outer.vt(),
                    old(self).outer.pending(),
                )
                &&& final(self).outer.pending() == Seq::<u8>::empty()
                &&& final(self).inner.vt() == final(self).outer.vt()
                &&& final(self).inner.pending() == Seq::<u8>::empty()
                &&& run(old(self).inner.vt(), r->Some_0@).grid == final(self).outer.vt().grid
                &&& run(old(self).inner.vt(), r->Some_0@).cursor == final(self).outer.vt().cursor
                &&& ((old(self).inner.vt().grid == final(self).outer.vt().grid && old(
                    self,
                ).inner.vt().cursor == final(self).outer.vt().cursor) ==> r->Some_0@
                    == Seq::<u8>::empty())
                &&& char_writes(old(self).inner.vt(), r->Some_0@) == count_diffs(
                    old(self).inner.vt().grid,
                    final(self).outer.vt().grid,
                    old(self).inner.vt().grid.len() as int,
                )
            },
            !old(self).wf() ==> {
                &&& final(self).inner.vt() == old(self).inner.vt()
                &&& final(self).outer.vt() == old(self).outer.vt()
                &&& final(self).inner.pending() == old(self).inner.pending()
                &&& final(self).outer.pending() == old(self).outer.pending()
                &&& final(self).inner.width == old(self).inner.width
                &&& final(self).inner.height == old(self).inner.height
                &&& final(self).outer.width == old(self).outer.width
                &&& final(self).outer.height == old(self).outer.height
            },
    {
        if self.inner.check_invariant() && self.outer.check_invariant() && self.inner.width
            == self.outer.width && self.inner.height == self.outer.height
            && self.inner.queue.len() == 0 {
            proof {
                assert(self.inner.queue@ =~= Seq::<u8>::empty());
            }
            Some(self.flip())
        } else {
            None
        }
    }
}

} // verus!
