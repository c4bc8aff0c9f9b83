//! The renderer: given the previously drawn frame and a new frame, it emits
//! the command sequence that updates the terminal in place so that exactly
//! the new frame's lines are shown.
//!
//! On the first frame every line is simply written out. Afterwards the cursor
//! is moved up to the first line of the old frame, every line of the new
//! frame is cleared and rewritten, any rows left over from a longer previous
//! frame are cleared, and the cursor is returned to the row just below the
//! new frame's last line. The lemmas at the end prove, against the terminal
//! model in [`crate::term`], that the emitted commands leave the screen
//! showing the new frame's lines and nothing else.

use vstd::prelude::*;

use crate::term::CmdV;
use crate::term::Term;
use crate::term::TermCmd;
use crate::term::apply_cmd;
use crate::term::apply_cmds;
use crate::term::cmds_view;
use crate::term::displays;
use crate::term::lemma_apply_cmds_concat;
use crate::term::lemma_cmds_view_push;
use crate::term::lemma_write_at_empty;
use crate::term::term_wf;

verus! {

/// One complete set of terminal lines showing the current status.
pub struct Frame {
    pub lines: Vec<String>,
}

impl View for Frame {
    type V = Seq<Seq<char>>;

    open spec fn view(&self) -> Seq<Seq<char>> {
        self.lines.deep_view()
    }
}

pub open spec fn prev_view(p: Option<Frame>) -> Option<Seq<Seq<char>>> {
    match p {
        None => None,
        Some(f) => Some(f@),
    }
}

/// `n` cursor-up commands.
pub open spec fn cursor_ups(n: nat) -> Seq<CmdV> {
    Seq::new(n, |i: int| CmdV::CursorUp)
}

/// Write each line followed by a newline: the first frame's commands.
pub open spec fn first_draw(f: Seq<Seq<char>>) -> Seq<CmdV>
    decreases f.len(),
{
    if f.len() == 0 {
        Seq::<CmdV>::empty()
    } else {
        seq![CmdV::Text(f[0]), CmdV::Newline] + first_draw(f.drop_first())
    }
}

/// Clear and rewrite each line in order, followed by a newline each.
pub open spec fn redraw(f: Seq<Seq<char>>) -> Seq<CmdV>
    decreases f.len(),
{
    if f.len() == 0 {
        Seq::<CmdV>::empty()
    } else {
        seq![CmdV::ClearLine, CmdV::Text(f[0]), CmdV::Newline] + redraw(f.drop_first())
    }
}

/// Clear `n` consecutive rows, moving down after each.
pub open spec fn clear_below(n: nat) -> Seq<CmdV>
    decreases n,
{
    if n == 0 {
        Seq::<CmdV>::empty()
    } else {
        seq![CmdV::ClearLine, CmdV::Newline] + clear_below((n - 1) as nat)
    }
}

/// How many rows of the previous frame stick out below the new one.
pub open spec fn excess(prev_n: nat, new_n: nat) -> nat {
    if prev_n > new_n {
        (prev_n - new_n) as nat
    } else {
        0
    }
}

/// The full command sequence for one frame: a plain write of every line on
/// the first call, and in-place clear-and-rewrite with trailing cleanup
/// afterwards.
pub open spec fn spec_render(prev: Option<Seq<Seq<char>>>, f: Seq<Seq<char>>) -> Seq<CmdV> {
    match prev {
        None => first_draw(f),
        Some(p) => cursor_ups(p.len()) + redraw(f) + clear_below(excess(p.len(), f.len()))
            + cursor_ups(excess(p.len(), f.len())),
    }
}

proof fn lemma_first_draw_snoc(s: Seq<Seq<char>>, x: Seq<char>)
    ensures
        first_draw(s.push(x)) == first_draw(s) + seq![CmdV::Text(x), CmdV::Newline],
    decreases s.len(),
{
    reveal_with_fuel(first_draw, 3);
    if s.len() == 0 {
        assert(s.push(x)[0] == x);
        assert(s.push(x).drop_first() =~= Seq::<Seq<char>>::empty());
        assert(first_draw(s.push(x)) =~= first_draw(s) + seq![CmdV::Text(x), CmdV::Newline]);
    } else {
        assert(s.push(x)[0] == s[0]);
        assert(s.push(x).drop_first() =~= s.drop_first().push(x));
        lemma_first_draw_snoc(s.drop_first(), x);
        assert(first_draw(s.push(x)) =~= first_draw(s) + seq![CmdV::Text(x), CmdV::Newline]);
    }
}

proof fn lemma_redraw_snoc(s: Seq<Seq<char>>, x: Seq<char>)
    ensures
        redraw(s.push(x)) == redraw(s) + seq![CmdV::ClearLine, CmdV::Text(x), CmdV::Newline],
    decreases s.len(),
{
    reveal_with_fuel(redraw, 3);
    if s.len() == 0 {
        assert(s.push(x)[0] == x);
        assert(s.push(x).drop_first() =~= Seq::<Seq<char>>::empty());
        assert(redraw(s.push(x)) =~= redraw(s) + seq![
            CmdV::ClearLine,
            CmdV::Text(x),
            CmdV::Newline,
        ]);
    } else {
        assert(s.push(x)[0] == s[0]);
        assert(s.push(x).drop_first() =~= s.drop_first().push(x));
        lemma_redraw_snoc(s.drop_first(), x);
        assert(redraw(s.push(x)) =~= redraw(s) + seq![
            CmdV::ClearLine,
            CmdV::Text(x),
            CmdV::Newline,
        ]);
    }
}

proof fn lemma_clear_below_snoc(n: nat)
    ensures
        clear_below(n + 1) == clear_below(n) + seq![CmdV::ClearLine, CmdV::Newline],
    decreases n,
{
    reveal_with_fuel(clear_below, 3);
    if n == 0 {
        assert(clear_below(1) =~= clear_below(0) + seq![CmdV::ClearLine, CmdV::Newline]);
    } else {
        lemma_clear_below_snoc((n - 1) as nat);
        assert(clear_below(n + 1) =~= clear_below(n) + seq![CmdV::ClearLine, CmdV::Newline]);
    }
}

/// Emits the commands of [`spec_render`] for the new frame `f`, given the
/// frame drawn by the previous call, if any.
pub fn render(prev: &Option<Frame>, f: &Frame) -> (r: Vec<TermCmd>)
    ensures
        cmds_view(r@) == spec_render(prev_view(*prev), f@),
{
    let mut r: Vec<TermCmd> = Vec::new();
    assert(cmds_view(r@) =~= Seq::<CmdV>::empty());
    match prev {
        None => {
            let mut j: usize = 0;
            assert(f@.take(0) =~= Seq::<Seq<char>>::empty());
            while j < f.lines.len()
                invariant
                    j <= f.lines@.len(),
                    f@.len() == f.lines@.len(),
                    cmds_view(r@) == first_draw(f@.take(j as int)),
                decreases f.lines@.len() - j,
            {
                proof {
                    assert(f@[j as int] == f.lines@[j as int]@);
                    assert(f@.take(j + 1) =~= f@.take(j as int).push(f@[j as int]));
                    lemma_first_draw_snoc(f@.take(j as int), f@[j as int]);
                }
                let ghost before = cmds_view(r@);
                r.push(TermCmd::Text(f.lines[j].clone()));
                r.push(TermCmd::Newline);
                proof {
                    assert(cmds_view(r@) =~= before + seq![
                        CmdV::Text(f@[j as int]),
                        CmdV::Newline,
                    ]);
                }
                j = j + 1;
            }
            proof {
                assert(f@.take(f@.len() as int) =~= f@);
            }
        },
        Some(p) => {
            let prev_n = p.lines.len();
            let mut j: usize = 0;
            while j < prev_n
                invariant
                    j <= prev_n,
                    prev_n == p.lines@.len(),
                    cmds_view(r@) == cursor_ups(j as nat),
                decreases prev_n - j,
            {
                let ghost before_seq = r@;
                r.push(TermCmd::CursorUp);
                proof {
                    lemma_cmds_view_push(before_seq, TermCmd::CursorUp);
                    assert(cmds_view(r@) =~= cursor_ups((j + 1) as nat));
                }
                j = j + 1;
            }
            let ghost ups = cursor_ups(prev_n as nat);
            let mut k: usize = 0;
            assert(f@.take(0) =~= Seq::<Seq<char>>::empty());
            assert(cmds_view(r@) =~= ups + redraw(f@.take(0)));
            while k < f.lines.len()
                invariant
                    k <= f.lines@.len(),
                    f@.len() == f.lines@.len(),
                    cmds_view(r@) == ups + redraw(f@.take(k as int)),
                decreases f.lines@.len() - k,
            {
                proof {
                    assert(f@[k as int] == f.lines@[k as int]@);
                    assert(f@.take(k + 1) =~= f@.take(k as int).push(f@[k as int]));
                    lemma_redraw_snoc(f@.take(k as int), f@[k as int]);
                }
                let ghost before = cmds_view(r@);
                r.push(TermCmd::ClearLine);
                r.push(TermCmd::Text(f.lines[k].clone()));
                r.push(TermCmd::Newline);
                proof {
                    assert(cmds_view(r@) =~= before + seq![
                        CmdV::ClearLine,
                        CmdV::Text(f@[k as int]),
                        CmdV::Newline,
                    ]);
                }
                k = k + 1;
            }
            proof {
                assert(f@.take(f@.len() as int) =~= f@);
            }
            let ex: usize = if prev_n > f.lines.len() {
                prev_n - f.lines.len()
            } else {
                0
            };
            assert(ex as nat == excess(p@.len(), f@.len()));
            let ghost base = ups + redraw(f@);
            let mut c: usize = 0;
            assert(cmds_view(r@) =~= base + clear_below(0));
            while c < ex
                invariant
                    c <= ex,
                    cmds_view(r@) == base + clear_below(c as nat),
                decreases ex - c,
            {
                proof {
                    lemma_clear_below_snoc(c as nat);
                }
                let ghost before = cmds_view(r@);
                r.push(TermCmd::ClearLine);
                r.push(TermCmd::Newline);
                proof {
                    assert(cmds_view(r@) =~= before + seq![CmdV::ClearLine, CmdV::Newline]);
                }
                c = c + 1;
            }
            let ghost base2 = base + clear_below(ex as nat);
            let mut u: usize = 0;
            assert(cmds_view(r@) =~= base2 + cursor_ups(0));
            while u < ex
                invariant
                    u <= ex,
                    cmds_view(r@) == base2 + cursor_ups(u as nat),
                decreases ex - u,
            {
                let ghost before_seq = r@;
                r.push(TermCmd::CursorUp);
                proof {
                    lemma_cmds_view_push(before_seq, TermCmd::CursorUp);
                    assert(cmds_view(r@) =~= base2 + cursor_ups((u + 1) as nat));
                }
                u = u + 1;
            }
            proof {
                assert(cmds_view(r@) =~= cursor_ups(p@.len()) + redraw(f@) + clear_below(
                    excess(p@.len(), f@.len()),
                ) + cursor_ups(excess(p@.len(), f@.len())));
            }
        },
    }
    r
}

proof fn lemma_apply_cmds2(t: Term, a: CmdV, b: CmdV)
    ensures
        apply_cmds(t, seq![a, b]) == apply_cmd(apply_cmd(t, a), b),
{
    reveal_with_fuel(apply_cmds, 4);
    assert(seq![a, b][0] == a);
    assert(seq![a, b].drop_first() =~= seq![b]);
    assert(seq![b][0] == b);
    assert(seq![b].drop_first() =~= Seq::<CmdV>::empty());
}

proof fn lemma_apply_cmds3(t: Term, a: CmdV, b: CmdV, c: CmdV)
    ensures
        apply_cmds(t, seq![a, b, c]) == apply_cmd(apply_cmd(apply_cmd(t, a), b), c),
{
    reveal_with_fuel(apply_cmds, 5);
    assert(seq![a, b, c][0] == a);
    assert(seq![a, b, c].drop_first() =~= seq![b, c]);
    assert(seq![b, c][0] == b);
    assert(seq![b, c].drop_first() =~= seq![c]);
    assert(seq![c][0] == c);
    assert(seq![c].drop_first() =~= Seq::<CmdV>::empty());
}

/// Moving the cursor up `n` rows leaves the screen contents alone.
proof fn lemma_apply_ups(t: Term, n: nat)
    requires
        term_wf(t),
        t.col == 0,
        n <= t.row,
    ensures
        apply_cmds(t, cursor_ups(n)) == (Term { rows: t.rows, row: (t.row - n) as nat, col: 0 }),
    decreases n,
{
    if n == 0 {
        assert(cursor_ups(0) =~= Seq::<CmdV>::empty());
        assert(t == (Term { rows: t.rows, row: (t.row - 0) as nat, col: 0 }));
    } else {
        assert(cursor_ups(n)[0] == CmdV::CursorUp);
        assert(cursor_ups(n).drop_first() =~= cursor_ups((n - 1) as nat));
        let t1 = apply_cmd(t, CmdV::CursorUp);
        lemma_apply_ups(t1, (n - 1) as nat);
    }
}

/// The effect of clearing and rewriting the lines of `f` from the current
/// row downwards: those rows now hold `f`, rows elsewhere are untouched, and
/// at most one blank row is appended at the bottom.
proof fn lemma_apply_redraw(t: Term, f: Seq<Seq<char>>)
    requires
        term_wf(t),
        t.col == 0,
    ensures
        ({
            let t2 = apply_cmds(t, redraw(f));
            let r = t.row as int;
            let n = f.len() as int;
            let big = t.rows.len() as int;
            &&& t2.row == r + n
            &&& t2.col == 0
            &&& t2.rows.len() == if r + n + 1 > big {
                r + n + 1
            } else {
                big
            }
            &&& forall|i: int| 0 <= i < r ==> t2.rows[i] == t.rows[i]
            &&& forall|i: int| r <= i < r + n ==> t2.rows[i] == f[i - r]
            &&& forall|i: int| r + n <= i < big ==> t2.rows[i] == t.rows[i]
            &&& r + n >= big ==> t2.rows[r + n] == Seq::<char>::empty()
        }),
    decreases f.len(),
{
    let r = t.row as int;
    let n = f.len() as int;
    let big = t.rows.len() as int;
    if f.len() == 0 {
        assert(redraw(f) =~= Seq::<CmdV>::empty());
    } else {
        let head = seq![CmdV::ClearLine, CmdV::Text(f[0]), CmdV::Newline];
        assert(redraw(f) == head + redraw(f.drop_first()));
        lemma_apply_cmds_concat(t, head, redraw(f.drop_first()));
        lemma_apply_cmds3(t, CmdV::ClearLine, CmdV::Text(f[0]), CmdV::Newline);
        let t1 = apply_cmd(t, CmdV::ClearLine);
        assert(t1.rows[r] =~= Seq::<char>::empty());
        let t2 = apply_cmd(t1, CmdV::Text(f[0]));
        lemma_write_at_empty(f[0]);
        assert(t2.rows =~= t.rows.update(r, f[0]));
        let t3 = apply_cmd(t2, CmdV::Newline);
        assert(term_wf(t3));
        lemma_apply_redraw(t3, f.drop_first());
        let tf = apply_cmds(t3, redraw(f.drop_first()));
        assert(apply_cmds(t, redraw(f)) == tf);
        assert(t3.rows.len() == if r + 1 < big {
            big
        } else {
            big + 1
        });
        assert forall|i: int| r <= i < r + n implies tf.rows[i] == f[i - r] by {
            if i == r {
                assert(tf.rows[i] == t3.rows[i]);
            } else {
                assert(tf.rows[i] == f.drop_first()[i - r - 1]);
                assert(f.drop_first()[i - r - 1] == f[i - r]);
            }
        }
        if r + n >= big {
            if r + 1 < big {
                assert(tf.rows[r + n] == Seq::<char>::empty());
            } else {
                if n == 1 {
                    assert(tf.rows[r + n] == t3.rows[r + 1]);
                    assert(t3.rows[r + 1] == Seq::<char>::empty());
                } else {
                    assert(r + 1 + (n - 1) >= t3.rows.len());
                    assert(tf.rows[r + n] == Seq::<char>::empty());
                }
            }
        }
    }
}

/// Writing the lines of `f` onto blank rows from the current row downwards.
proof fn lemma_apply_first_draw(t: Term, f: Seq<Seq<char>>)
    requires
        term_wf(t),
        t.col == 0,
        forall|i: int| t.row <= i < t.rows.len() ==> t.rows[i].len() == 0,
    ensures
        ({
            let t2 = apply_cmds(t, first_draw(f));
            let r = t.row as int;
            let n = f.len() as int;
            let big = t.rows.len() as int;
            &&& t2.row == r + n
            &&& t2.col == 0
            &&& t2.rows.len() == if r + n + 1 > big {
                r + n + 1
            } else {
                big
            }
            &&& forall|i: int| 0 <= i < r ==> t2.rows[i] == t.rows[i]
            &&& forall|i: int| r <= i < r + n ==> t2.rows[i] == f[i - r]
            &&& forall|i: int| r + n <= i < big ==> t2.rows[i] == t.rows[i]
            &&& r + n >= big ==> t2.rows[r + n] == Seq::<char>::empty()
        }),
    decreases f.len(),
{
    let r = t.row as int;
    let n = f.len() as int;
    let big = t.rows.len() as int;
    if f.len() == 0 {
        assert(first_draw(f) =~= Seq::<CmdV>::empty());
    } else {
        let head = seq![CmdV::Text(f[0]), CmdV::Newline];
        assert(first_draw(f) == head + first_draw(f.drop_first()));
        lemma_apply_cmds_concat(t, head, first_draw(f.drop_first()));
        lemma_apply_cmds2(t, CmdV::Text(f[0]), CmdV::Newline);
        assert(t.rows[r] =~= Seq::<char>::empty());
        let t2 = apply_cmd(t, CmdV::Text(f[0]));
        lemma_write_at_empty(f[0]);
        assert(t2.rows =~= t.rows.update(r, f[0]));
        let t3 = apply_cmd(t2, CmdV::Newline);
        assert(term_wf(t3));
        assert(forall|i: int|
            t3.row <= i < t3.rows.len() ==> t3.rows[i].len() == 0);
        lemma_apply_first_draw(t3, f.drop_first());
        let tf = apply_cmds(t3, first_draw(f.drop_first()));
        assert(apply_cmds(t, first_draw(f)) == tf);
        assert(t3.rows.len() == if r + 1 < big {
            big
        } else {
            big + 1
        });
        assert forall|i: int| r <= i < r + n implies tf.rows[i] == f[i - r] by {
            if i == r {
                assert(tf.rows[i] == t3.rows[i]);
            } else {
                assert(tf.rows[i] == f.drop_first()[i - r - 1]);
                assert(f.drop_first()[i - r - 1] == f[i - r]);
            }
        }
        if r + n >= big {
            if r + 1 < big {
                assert(tf.rows[r + n] == Seq::<char>::empty());
            } else {
                if n == 1 {
                    assert(tf.rows[r + n] == t3.rows[r + 1]);
                    assert(t3.rows[r + 1] == Seq::<char>::empty());
                } else {
                    assert(r + 1 + (n - 1) >= t3.rows.len());
                    assert(tf.rows[r + n] == Seq::<char>::empty());
                }
            }
        }
    }
}

/// Clearing `n` rows downwards blanks exactly those rows.
proof fn lemma_apply_clear_below(t: Term, n: nat)
    requires
        term_wf(t),
        t.col == 0,
        t.row + n < t.rows.len(),
    ensures
        ({
            let t2 = apply_cmds(t, clear_below(n));
            let r = t.row as int;
            &&& t2.row == r + n
            &&& t2.col == 0
            &&& t2.rows.len() == t.rows.len()
            &&& forall|i: int| 0 <= i < r ==> t2.rows[i] == t.rows[i]
            &&& forall|i: int| r <= i < r + n ==> t2.rows[i].len() == 0
            &&& forall|i: int| r + n <= i < t.rows.len() ==> t2.rows[i] == t.rows[i]
        }),
    decreases n,
{
    if n == 0 {
        assert(clear_below(0) =~= Seq::<CmdV>::empty());
    } else {
        let head = seq![CmdV::ClearLine, CmdV::Newline];
        assert(clear_below(n) == head + clear_below((n - 1) as nat));
        lemma_apply_cmds_concat(t, head, clear_below((n - 1) as nat));
        lemma_apply_cmds2(t, CmdV::ClearLine, CmdV::Newline);
        let t1 = apply_cmd(t, CmdV::ClearLine);
        let t3 = apply_cmd(t1, CmdV::Newline);
        assert(term_wf(t3));
        lemma_apply_clear_below(t3, (n - 1) as nat);
    }
}

/// Renderer correctness: if the screen shows the previous frame (or is fresh
/// when there is none), then after the commands of [`spec_render`] it shows
/// exactly the new frame's lines, with only blank rows below them and the
/// cursor just under the last line.
pub proof fn lemma_render_displays(t: Term, prev: Option<Seq<Seq<char>>>, f: Seq<Seq<char>>)
    requires
        match prev {
            None => displays(t, Seq::<Seq<char>>::empty()),
            Some(p) => displays(t, p),
        },
    ensures
        displays(apply_cmds(t, spec_render(prev, f)), f),
{
    match prev {
        None => {
            lemma_apply_first_draw(t, f);
        },
        Some(p) => {
            let np = p.len();
            let ex = excess(np, f.len());
            let a = cursor_ups(np);
            let b = redraw(f);
            let cc = clear_below(ex);
            let d = cursor_ups(ex);
            assert(spec_render(prev, f) == ((a + b) + cc) + d);
            lemma_apply_cmds_concat(t, (a + b) + cc, d);
            lemma_apply_cmds_concat(t, a + b, cc);
            lemma_apply_cmds_concat(t, a, b);
            lemma_apply_ups(t, np);
            let t1 = apply_cmds(t, a);
            assert(t1.row == 0);
            lemma_apply_redraw(t1, f);
            let t2 = apply_cmds(t1, b);
            assert(t2.row + ex < t2.rows.len());
            lemma_apply_clear_below(t2, ex);
            let t3 = apply_cmds(t2, cc);
            lemma_apply_ups(t3, ex);
            let t4 = apply_cmds(t3, d);
            assert(apply_cmds(t, spec_render(prev, f)) == t4);
            assert forall|i: int| f.len() <= i < t4.rows.len() implies t4.rows[i].len() == 0 by {
                if i < f.len() + ex {
                    assert(t3.rows[i].len() == 0);
                } else {
                    assert(t4.rows[i] == t2.rows[i]);
                    if i < t.rows.len() {
                        assert(t2.rows[i] == t.rows[i]);
                        assert(i >= p.len());
                    } else {
                        assert(i == f.len());
                        assert(t2.rows[i] == Seq::<char>::empty());
                    }
                }
            }
            assert(displays(t4, f));
        },
    }
}

/// The screen state after rendering each frame of a sequence in turn.
pub open spec fn render_run(t: Term, prev: Option<Seq<Seq<char>>>, frames: Seq<Seq<Seq<char>>>) -> Term
    decreases frames.len(),
{
    if frames.len() == 0 {
        t
    } else {
        render_run(
            apply_cmds(t, spec_render(prev, frames[0])),
            Some(frames[0]),
            frames.drop_first(),
        )
    }
}

/// Over any sequence of frames, however their line counts vary, the screen
/// ends up showing exactly the last frame's lines and no others.
pub proof fn lemma_render_run(t: Term, prev: Option<Seq<Seq<char>>>, frames: Seq<Seq<Seq<char>>>)
    requires
        frames.len() > 0,
        match prev {
            None => displays(t, Seq::<Seq<char>>::empty()),
            Some(p) => displays(t, p),
        },
    ensures
        displays(render_run(t, prev, frames), frames.last()),
    decreases frames.len(),
{
    lemma_render_displays(t, prev, frames[0]);
    let t1 = apply_cmds(t, spec_render(prev, frames[0]));
    if frames.len() == 1 {
        assert(render_run(t1, Some(frames[0]), frames.drop_first()) == t1);
        assert(frames.last() == frames[0]);
    } else {
        lemma_render_run(t1, Some(frames[0]), frames.drop_first());
        assert(frames.drop_first().last() == frames.last());
    }
}

} // verus!
