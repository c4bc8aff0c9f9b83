//! Terminal output commands and their semantics.
//!
//! The renderer emits a sequence of [`TermCmd`] values; each one encodes to a
//! fixed byte sequence (plain text, a newline, the VT100 cursor-up sequence,
//! or the VT100 clear-line sequence followed by a carriage return). The ghost
//! type [`Term`] models a terminal screen as a sequence of rows plus a cursor,
//! and [`apply_cmds`] gives the meaning of a command sequence on that model,
//! so that the renderer's effect on the screen can be stated and proved.

use vstd::prelude::*;
use vstd::string::StringExecFns;

verus! {

/// One terminal output command.
pub enum TermCmd {
    /// Write the text at the cursor, advancing the cursor within the row.
    Text(String),
    /// Move to the start of the next row, scrolling if on the last row.
    Newline,
    /// Move to the start of the previous row.
    CursorUp,
    /// Erase the current row and return the cursor to its start.
    ClearLine,
}

/// Ghost counterpart of [`TermCmd`], with the text as a character sequence.
pub ghost enum CmdV {
    Text(Seq<char>),
    Newline,
    CursorUp,
    ClearLine,
}

pub open spec fn cmd_view(c: TermCmd) -> CmdV {
    match c {
        TermCmd::Text(s) => CmdV::Text(s@),
        TermCmd::Newline => CmdV::Newline,
        TermCmd::CursorUp => CmdV::CursorUp,
        TermCmd::ClearLine => CmdV::ClearLine,
    }
}

pub open spec fn cmds_view(s: Seq<TermCmd>) -> Seq<CmdV> {
    s.map(|i: int, c: TermCmd| cmd_view(c))
}

pub proof fn lemma_cmds_view_push(s: Seq<TermCmd>, c: TermCmd)
    ensures
        cmds_view(s.push(c)) == cmds_view(s).push(cmd_view(c)),
{
    assert(cmds_view(s.push(c)) =~= cmds_view(s).push(cmd_view(c)));
}

/// A terminal screen: the text of each row, and the cursor position.
pub ghost struct Term {
    pub rows: Seq<Seq<char>>,
    pub row: nat,
    pub col: nat,
}

/// The cursor rests on an existing row.
pub open spec fn term_wf(t: Term) -> bool {
    t.row < t.rows.len()
}

/// A screen holding a single empty row with the cursor at its start.
pub open spec fn initial_term() -> Term {
    Term { rows: seq![Seq::<char>::empty()], row: 0, col: 0 }
}

/// Overwriting `line` with `s` starting at column `col`, padding with spaces
/// if the line is shorter than `col`.
pub open spec fn write_at(line: Seq<char>, col: nat, s: Seq<char>) -> Seq<char> {
    let padded = if line.len() < col {
        line + Seq::new((col - line.len()) as nat, |i: int| ' ')
    } else {
        line
    };
    let pre = padded.take(col as int);
    let post = if padded.len() > col + s.len() {
        padded.skip((col + s.len()) as int)
    } else {
        Seq::<char>::empty()
    };
    pre + s + post
}

pub proof fn lemma_write_at_empty(s: Seq<char>)
    ensures
        write_at(Seq::<char>::empty(), 0, s) == s,
{
    assert(write_at(Seq::<char>::empty(), 0, s) =~= s);
}

/// The effect of one command on the screen.
pub open spec fn apply_cmd(t: Term, c: CmdV) -> Term {
    match c {
        CmdV::Text(s) => Term {
            rows: t.rows.update(t.row as int, write_at(t.rows[t.row as int], t.col, s)),
            row: t.row,
            col: (t.col + s.len()) as nat,
        },
        CmdV::Newline => Term {
            rows: if t.row + 1 < t.rows.len() {
                t.rows
            } else {
                t.rows.push(Seq::<char>::empty())
            },
            row: (t.row + 1) as nat,
            col: 0,
        },
        CmdV::CursorUp => Term {
            rows: t.rows,
            row: if t.row > 0 {
                (t.row - 1) as nat
            } else {
                0
            },
            col: 0,
        },
        CmdV::ClearLine => Term {
            rows: t.rows.update(t.row as int, Seq::<char>::empty()),
            row: t.row,
            col: 0,
        },
    }
}

/// The effect of a command sequence, applied left to right.
pub open spec fn apply_cmds(t: Term, cs: Seq<CmdV>) -> Term
    decreases cs.len(),
{
    if cs.len() == 0 {
        t
    } else {
        apply_cmds(apply_cmd(t, cs[0]), cs.drop_first())
    }
}

pub proof fn lemma_apply_cmds_concat(t: Term, a: Seq<CmdV>, b: Seq<CmdV>)
    ensures
        apply_cmds(t, a + b) == apply_cmds(apply_cmds(t, a), b),
    decreases a.len(),
{
    if a.len() == 0 {
        assert(a + b =~= b);
    } else {
        assert((a + b)[0] == a[0]);
        assert((a + b).drop_first() =~= a.drop_first() + b);
        lemma_apply_cmds_concat(apply_cmd(t, a[0]), a.drop_first(), b);
    }
}

/// The screen shows exactly the lines of `f`, in order, with nothing but
/// blank rows below them, and the cursor at the start of the row just below
/// the last line.
pub open spec fn displays(t: Term, f: Seq<Seq<char>>) -> bool {
    &&& f.len() < t.rows.len()
    &&& t.row == f.len()
    &&& t.col == 0
    &&& forall|i: int| 0 <= i < f.len() ==> t.rows[i] == f[i]
    &&& forall|i: int| f.len() <= i < t.rows.len() ==> t.rows[i].len() == 0
}

/// A fresh terminal region shows the empty frame, so a first render can
/// start from [`initial_term`].
pub proof fn lemma_initial_term_blank()
    ensures
        displays(initial_term(), Seq::<Seq<char>>::empty()),
{
}

/// The bytes (as characters) that one command writes to the terminal.
pub open spec fn encode_cmd(c: CmdV) -> Seq<char> {
    match c {
        CmdV::Text(s) => s,
        CmdV::Newline => seq!['\n'],
        CmdV::CursorUp => seq!['\u{1b}', '[', 'F'],
        CmdV::ClearLine => seq!['\u{1b}', '[', '2', 'K', '\r'],
    }
}

/// The bytes of a whole command sequence.
pub open spec fn spec_encode(cs: Seq<CmdV>) -> Seq<char>
    decreases cs.len(),
{
    if cs.len() == 0 {
        Seq::<char>::empty()
    } else {
        encode_cmd(cs[0]) + spec_encode(cs.drop_first())
    }
}

proof fn lemma_spec_encode_snoc(cs: Seq<CmdV>, c: CmdV)
    ensures
        spec_encode(cs.push(c)) == spec_encode(cs) + encode_cmd(c),
    decreases cs.len(),
{
    reveal_with_fuel(spec_encode, 3);
    if cs.len() == 0 {
        assert(cs.push(c)[0] == c);
        assert(cs.push(c).drop_first() =~= Seq::<CmdV>::empty());
        assert(spec_encode(cs.push(c)) =~= spec_encode(cs) + encode_cmd(c));
    } else {
        assert(cs.push(c)[0] == cs[0]);
        assert(cs.push(c).drop_first() =~= cs.drop_first().push(c));
        lemma_spec_encode_snoc(cs.drop_first(), c);
        assert(spec_encode(cs.push(c)) == encode_cmd(cs[0]) + spec_encode(cs.drop_first().push(c)));
        assert(encode_cmd(cs[0]) + (spec_encode(cs.drop_first()) + encode_cmd(c)) =~= (encode_cmd(
            cs[0],
        ) + spec_encode(cs.drop_first())) + encode_cmd(c));
        assert(spec_encode(cs.push(c)) =~= spec_encode(cs) + encode_cmd(c));
    }
}

/// Turns a command sequence into the exact string of bytes to hand to the
/// terminal.
pub fn encode_cmds(cmds: &Vec<TermCmd>) -> (r: String)
    ensures
        r@ == spec_encode(cmds_view(cmds@)),
{
    let mut r = String::new();
    let mut i: usize = 0;
    while i < cmds.len()
        invariant
            i <= cmds@.len(),
            r@ == spec_encode(cmds_view(cmds@.take(i as int))),
        decreases cmds@.len() - i,
    {
        proof {
            assert(cmds@.take(i + 1) =~= cmds@.take(i as int).push(cmds@[i as int]));
            assert(cmds_view(cmds@.take(i + 1)) =~= cmds_view(cmds@.take(i as int)).push(
                cmd_view(cmds@[i as int]),
            ));
            lemma_spec_encode_snoc(cmds_view(cmds@.take(i as int)), cmd_view(cmds@[i as int]));
        }
        match &cmds[i] {
            TermCmd::Text(s) => {
                r.append(s.as_str());
            },
            TermCmd::Newline => {
                r.append("\n");
                proof {
                    reveal_strlit("\n");
                    assert("\n"@ =~= encode_cmd(cmd_view(cmds@[i as int])));
                }
            },
            TermCmd::CursorUp => {
                r.append("\u{1b}[F");
                proof {
                    reveal_strlit("\u{1b}[F");
                    assert("\u{1b}[F"@ =~= encode_cmd(cmd_view(cmds@[i as int])));
                }
            },
            TermCmd::ClearLine => {
                r.append("\u{1b}[2K\r");
                proof {
                    reveal_strlit("\u{1b}[2K\r");
                    assert("\u{1b}[2K\r"@ =~= encode_cmd(cmd_view(cmds@[i as int])));
                }
            },
        }
        i = i + 1;
    }
    proof {
        assert(cmds@.take(cmds@.len() as int) =~= cmds@);
    }
    r
}

} // verus!
