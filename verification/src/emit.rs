//! Emission of control sequences, with proofs of what replaying each one
//! does to an interpreter state.  The diff algorithm builds its output from
//! these pieces alone.

use vstd::prelude::*;
use crate::position::Position;
use crate::style::Style;
use crate::vt::{
    Mode, Vt, char_writes, dispatch, ground, lemma_char_writes_concat, lemma_char_writes_snoc,
    lemma_run_concat, run, step, writes_char,
};

verus! {

/// The decimal digits of `n`, most significant first.
pub open spec fn dec(n: nat) -> Seq<u8>
    decreases n,
{
    if n < 10 {
        seq![(0x30 + n) as u8]
    } else {
        dec(n / 10).push((0x30 + n % 10) as u8)
    }
}

/// Appends the decimal digits of `n`.
pub fn push_dec(out: &mut Vec<u8>, n: usize)
    ensures
        final(out)@ == old(out)@ + dec(n as nat),
    decreases n,
{
    if n >= 10 {
        push_dec(out, n / 10);
    }
    out.push(0x30 + (n % 10) as u8);
    proof {
        if n < 10 {
            assert(out@ =~= old(out)@ + dec(n as nat));
        } else {
            assert(out@ =~= old(out)@ + dec(n as nat));
        }
    }
}

/// Replaying one byte is one step.
pub proof fn lemma_run_one(s: Vt, b: u8)
    ensures
        run(s, seq![b]) == step(s, b),
        char_writes(s, seq![b]) == (if writes_char(s, b) {
            1nat
        } else {
            0nat
        }),
{
    assert(seq![b][0] == b);
    assert(seq![b].drop_first() =~= Seq::<u8>::empty());
    assert(run(step(s, b), seq![b].drop_first()) == step(s, b));
    assert(char_writes(step(s, b), seq![b].drop_first()) == 0);
}

/// Digits accumulate exactly the number they spell, starting from a fresh
/// parameter.
pub proof fn lemma_run_digits(s: Vt, ps: Seq<usize>, n: usize)
    requires
        s.mode == (Mode::Csi { params: ps, cur: 0, bad: false }),
    ensures
        run(s, dec(n as nat)) == (Vt {
            mode: Mode::Csi { params: ps, cur: n, bad: false },
            ..s
        }),
        char_writes(s, dec(n as nat)) == 0,
    decreases n,
{
    vstd::arithmetic::div_mod::lemma_fundamental_div_mod(n as int, 10);
    if n < 10 {
        let b = (0x30 + n) as u8;
        lemma_run_one(s, b);
        assert(step(s, b) == Vt { mode: Mode::Csi { params: ps, cur: n, bad: false }, ..s });
    } else {
        let m = n / 10;
        lemma_run_digits(s, ps, m);
        let b = (0x30 + n % 10) as u8;
        crate::vt::lemma_run_snoc(s, dec(m as nat), b);
        lemma_char_writes_snoc(s, dec(m as nat), b);
        assert(dec(n as nat) == dec(m as nat).push(b));
        let s1 = Vt { mode: Mode::Csi { params: ps, cur: m, bad: false }, ..s };
        assert(step(s1, b) == Vt { mode: Mode::Csi { params: ps, cur: n, bad: false }, ..s });
    }
}

/// `dec` never writes more digits than the value itself.
pub proof fn lemma_dec_len_bound(n: nat)
    ensures
        dec(n).len() <= n + 1,
    decreases n,
{
    if n >= 10 {
        lemma_dec_len_bound(n / 10);
    }
}

/// The count of decimal digits that `push_dec` will append.
pub fn dec_len(n: usize) -> (r: usize)
    ensures
        r as nat == dec(n as nat).len(),
    decreases n,
{
    if n < 10 {
        1
    } else {
        proof {
            lemma_dec_len_bound((n / 10) as nat);
        }
        let d = dec_len(n / 10);
        d + 1
    }
}

/// The bytes of an absolute cursor positioning sequence,
/// `ESC [ row+1 ; col+1 H` with 1-indexed wire coordinates.
pub open spec fn cup_bytes(row: usize, col: usize) -> Seq<u8> {
    seq![0x1bu8] + seq![0x5bu8] + dec((row + 1) as nat) + seq![0x3bu8] + dec((col + 1) as nat)
        + seq![0x48u8]
}

/// Appends an absolute positioning sequence.
pub fn emit_cup(out: &mut Vec<u8>, row: usize, col: usize)
    requires
        row < usize::MAX,
        col < usize::MAX,
    ensures
        final(out)@ == old(out)@ + cup_bytes(row, col),
{
    out.push(0x1b);
    out.push(0x5b);
    push_dec(out, row + 1);
    out.push(0x3b);
    push_dec(out, col + 1);
    out.push(0x48);
    proof {
        assert(out@ =~= old(out)@ + cup_bytes(row, col));
    }
}

/// Replaying an absolute positioning sequence from the ground mode moves
/// the cursor there and changes nothing else.
pub proof fn lemma_run_cup(s: Vt, row: usize, col: usize)
    requires
        s.mode == Mode::Ground,
        (row as nat) < s.height,
        (col as nat) < s.width,
        row < usize::MAX,
        col < usize::MAX,
    ensures
        run(s, cup_bytes(row, col)) == (Vt { cursor: Position { row, col }, ..s }),
        char_writes(s, cup_bytes(row, col)) == 0,
{
    let c0 = seq![0x1bu8];
    let c1 = seq![0x5bu8];
    let d1 = dec((row + 1) as nat);
    let c2 = seq![0x3bu8];
    let d2 = dec((col + 1) as nat);
    let c3 = seq![0x48u8];
    lemma_run_concat(s, c0 + c1 + d1 + c2 + d2, c3);
    lemma_run_concat(s, c0 + c1 + d1 + c2, d2);
    lemma_run_concat(s, c0 + c1 + d1, c2);
    lemma_run_concat(s, c0 + c1, d1);
    lemma_run_concat(s, c0, c1);
    lemma_char_writes_concat(s, c0 + c1 + d1 + c2 + d2, c3);
    lemma_char_writes_concat(s, c0 + c1 + d1 + c2, d2);
    lemma_char_writes_concat(s, c0 + c1 + d1, c2);
    lemma_char_writes_concat(s, c0 + c1, d1);
    lemma_char_writes_concat(s, c0, c1);
    lemma_run_one(s, 0x1b);
    let s1 = step(s, 0x1b);
    lemma_run_one(s1, 0x5b);
    let s2 = step(s1, 0x5b);
    assert(s2 == Vt { mode: Mode::Csi { params: Seq::empty(), cur: 0, bad: false }, ..s });
    lemma_run_digits(s2, Seq::empty(), (row + 1) as usize);
    let s3 = Vt { mode: Mode::Csi { params: Seq::empty(), cur: (row + 1) as usize, bad: false }, ..s };
    lemma_run_one(s3, 0x3b);
    let s4 = step(s3, 0x3b);
    assert(s4 == Vt {
        mode: Mode::Csi { params: Seq::empty().push((row + 1) as usize), cur: 0, bad: false },
        ..s
    });
    lemma_run_digits(s4, Seq::empty().push((row + 1) as usize), (col + 1) as usize);
    let s5 = Vt {
        mode: Mode::Csi {
            params: Seq::empty().push((row + 1) as usize),
            cur: (col + 1) as usize,
            bad: false,
        },
        ..s
    };
    lemma_run_one(s5, 0x48);
    let ps = Seq::<usize>::empty().push((row + 1) as usize).push((col + 1) as usize);
    assert(ps[0] == (row + 1) as usize);
    assert(ps[1] == (col + 1) as usize);
    assert(step(s5, 0x48) == dispatch(ground(s5), ps, 0x48));
    assert(dispatch(ground(s5), ps, 0x48) == Vt { cursor: Position { row, col }, ..s });
}

/// The bytes of a single control sequence with one numeric parameter:
/// `ESC [ n f`.  With a motion final byte this is a relative cursor
/// move.
pub open spec fn move_bytes(n: usize, f: u8) -> Seq<u8> {
    seq![0x1bu8] + seq![0x5bu8] + dec(n as nat) + seq![f]
}

/// Appends a single-parameter control sequence.
pub fn emit_move(out: &mut Vec<u8>, n: usize, f: u8)
    ensures
        final(out)@ == old(out)@ + move_bytes(n, f),
{
    out.push(0x1b);
    out.push(0x5b);
    push_dec(out, n);
    out.push(f);
    proof {
        assert(out@ =~= old(out)@ + move_bytes(n, f));
    }
}

/// Replaying one single-parameter control sequence is one dispatch.
pub proof fn lemma_run_move(s: Vt, n: usize, f: u8)
    requires
        s.mode == Mode::Ground,
        0x40 <= f <= 0x7e,
    ensures
        run(s, move_bytes(n, f)) == dispatch(s, seq![n], f),
        char_writes(s, move_bytes(n, f)) == 0,
{
    let c0 = seq![0x1bu8];
    let c1 = seq![0x5bu8];
    let d1 = dec(n as nat);
    let c3 = seq![f];
    lemma_run_concat(s, c0 + c1 + d1, c3);
    lemma_run_concat(s, c0 + c1, d1);
    lemma_run_concat(s, c0, c1);
    lemma_char_writes_concat(s, c0 + c1 + d1, c3);
    lemma_char_writes_concat(s, c0 + c1, d1);
    lemma_char_writes_concat(s, c0, c1);
    lemma_run_one(s, 0x1b);
    let s1 = step(s, 0x1b);
    lemma_run_one(s1, 0x5b);
    let s2 = step(s1, 0x5b);
    assert(s2 == Vt { mode: Mode::Csi { params: Seq::empty(), cur: 0, bad: false }, ..s });
    lemma_run_digits(s2, Seq::empty(), n);
    let s3 = Vt { mode: Mode::Csi { params: Seq::empty(), cur: n, bad: false }, ..s };
    lemma_run_one(s3, f);
    assert(Seq::<usize>::empty().push(n) =~= seq![n]);
    assert(step(s3, f) == dispatch(ground(s3), seq![n], f));
    assert(ground(s3) == s);
}

/// The bytes that set the style register to exactly `st`: a reset followed
/// by each attribute that is on.
pub open spec fn sgr_bytes(st: Style) -> Seq<u8> {
    if st.bold {
        seq![0x1bu8, 0x5bu8, 0x30u8, 0x3bu8, 0x31u8, 0x6du8]
    } else {
        seq![0x1bu8, 0x5bu8, 0x30u8, 0x6du8]
    }
}

/// Appends a select-graphic-rendition sequence for `st`.
pub fn emit_sgr(out: &mut Vec<u8>, st: &Style)
    ensures
        final(out)@ == old(out)@ + sgr_bytes(*st),
{
    out.push(0x1b);
    out.push(0x5b);
    out.push(0x30);
    if st.bold {
        out.push(0x3b);
        out.push(0x31);
    }
    out.push(0x6d);
    proof {
        assert(out@ =~= old(out)@ + sgr_bytes(*st));
    }
}

/// Replaying an SGR sequence built by `sgr_bytes` from the ground mode sets
/// the style register to exactly `st`, whatever it was before, and changes
/// nothing else.
pub proof fn lemma_run_sgr(s: Vt, st: Style)
    requires
        s.mode == Mode::Ground,
    ensures
        run(s, sgr_bytes(st)) == (Vt { style: st, ..s }),
        char_writes(s, sgr_bytes(st)) == 0,
{
    let bs = sgr_bytes(st);
    let s1 = step(s, 0x1b);
    let s2 = step(s1, 0x5b);
    let s3 = step(s2, 0x30);
    if st.bold {
        let r1 = seq![0x5bu8, 0x30u8, 0x3bu8, 0x31u8, 0x6du8];
        let r2 = seq![0x30u8, 0x3bu8, 0x31u8, 0x6du8];
        let r3 = seq![0x3bu8, 0x31u8, 0x6du8];
        let r4 = seq![0x31u8, 0x6du8];
        let r5 = seq![0x6du8];
        assert(bs.drop_first() =~= r1);
        assert(r1.drop_first() =~= r2);
        assert(r2.drop_first() =~= r3);
        assert(r3.drop_first() =~= r4);
        assert(r4.drop_first() =~= r5);
        assert(r5.drop_first() =~= Seq::<u8>::empty());
        let s4 = step(s3, 0x3b);
        let s5 = step(s4, 0x31);
        let s6 = step(s5, 0x6d);
        assert(run(s, bs) == run(s1, r1));
        assert(run(s1, r1) == run(s2, r2));
        assert(run(s2, r2) == run(s3, r3));
        assert(run(s3, r3) == run(s4, r4));
        assert(run(s4, r4) == run(s5, r5));
        assert(run(s5, r5) == run(s6, r5.drop_first()));
        assert(run(s6, r5.drop_first()) == s6);
        assert(char_writes(s, bs) == char_writes(s1, r1));
        assert(char_writes(s1, r1) == char_writes(s2, r2));
        assert(char_writes(s2, r2) == char_writes(s3, r3));
        assert(char_writes(s3, r3) == char_writes(s4, r4));
        assert(char_writes(s4, r4) == char_writes(s5, r5));
        assert(char_writes(s5, r5) == char_writes(s6, r5.drop_first()));
        assert(char_writes(s6, r5.drop_first()) == 0);
        let ps = Seq::<usize>::empty().push(0).push(1);
        assert(s6 == dispatch(ground(s5), ps, 0x6d));
        assert(ps[0] == 0 && ps[1] == 1);
        let ps1 = Seq::<usize>::empty().push(1);
        assert(ps.drop_first() =~= ps1);
        assert(ps1.drop_first() =~= Seq::<usize>::empty());
        assert(crate::vt::sgr(s.style, ps) == crate::vt::sgr(Style { bold: false }, ps1));
        assert(crate::vt::sgr(Style { bold: false }, ps1) == crate::vt::sgr(
            Style { bold: true },
            ps1.drop_first(),
        ));
        assert(crate::vt::sgr(Style { bold: true }, ps1.drop_first()) == st);
        assert(s6 == Vt { style: st, ..s });
    } else {
        let r1 = seq![0x5bu8, 0x30u8, 0x6du8];
        let r2 = seq![0x30u8, 0x6du8];
        let r3 = seq![0x6du8];
        assert(bs.drop_first() =~= r1);
        assert(r1.drop_first() =~= r2);
        assert(r2.drop_first() =~= r3);
        assert(r3.drop_first() =~= Seq::<u8>::empty());
        let s4 = step(s3, 0x6d);
        assert(run(s, bs) == run(s1, r1));
        assert(run(s1, r1) == run(s2, r2));
        assert(run(s2, r2) == run(s3, r3));
        assert(run(s3, r3) == run(s4, r3.drop_first()));
        assert(run(s4, r3.drop_first()) == s4);
        assert(char_writes(s, bs) == char_writes(s1, r1));
        assert(char_writes(s1, r1) == char_writes(s2, r2));
        assert(char_writes(s2, r2) == char_writes(s3, r3));
        assert(char_writes(s3, r3) == char_writes(s4, r3.drop_first()));
        assert(char_writes(s4, r3.drop_first()) == 0);
        let ps = Seq::<usize>::empty().push(0);
        assert(s4 == dispatch(ground(s3), ps, 0x6d));
        assert(ps[0] == 0);
        assert(ps.drop_first() =~= Seq::<usize>::empty());
        assert(crate::vt::sgr(s.style, ps) == crate::vt::sgr(
            Style { bold: false },
            ps.drop_first(),
        ));
        assert(crate::vt::sgr(Style { bold: false }, ps.drop_first()) == st);
        assert(s4 == Vt { style: st, ..s });
    }
}

} // verus!
