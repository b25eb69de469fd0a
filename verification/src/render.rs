use vstd::prelude::*;
use vstd::string::StrSliceExecFns;
use vstd::string::StringExecFns;
use crate::direction::Direction;
use crate::field::Block;
use crate::field::Field;
use crate::position::Position;

verus! {

/// The two-column glyph drawn for one cell: blank for `Empty`, a shaded pair
/// for `Food`, a full pair for `Snake` and the virtual `Wall`, and a
/// half-block pair pointing the way the head faces.
pub open spec fn glyph(b: Block) -> Seq<char> {
    match b {
        Block::Empty => "  "@,
        Block::Food => "\u{2592}\u{2592}"@,
        Block::Snake => "\u{2588}\u{2588}"@,
        Block::Wall => "\u{2588}\u{2588}"@,
        Block::Head(d) => match d {
            Direction::Up => "\u{2580}\u{2580}"@,
            Direction::Right => " \u{2590}"@,
            Direction::Down => "\u{2584}\u{2584}"@,
            Direction::Left => "\u{258c} "@,
        },
    }
}

/// One rendered row of cells, left to right.
pub open spec fn render_row(row: Seq<Block>) -> Seq<char>
    decreases row.len(),
{
    if row.len() == 0 {
        Seq::empty()
    } else {
        render_row(row.drop_last()) + glyph(row.last())
    }
}

/// All rendered rows, each between side bars and ended by a line break.
pub open spec fn render_rows(rows: Seq<Seq<Block>>) -> Seq<char>
    decreases rows.len(),
{
    if rows.len() == 0 {
        Seq::empty()
    } else {
        render_rows(rows.drop_last()) + "\u{2503}"@ + render_row(rows.last()) + "\u{2503}\r\n"@
    }
}

/// `k` single horizontal bar characters.
pub open spec fn bar(k: nat) -> Seq<char>
    decreases k,
{
    if k == 0 {
        Seq::empty()
    } else {
        bar((k - 1) as nat) + "\u{2501}"@
    }
}

/// `k` cell-wide (doubled) horizontal bar characters.
pub open spec fn double_bar(k: nat) -> Seq<char>
    decreases k,
{
    if k == 0 {
        Seq::empty()
    } else {
        double_bar((k - 1) as nat) + "\u{2501}\u{2501}"@
    }
}

/// The decimal digit character for one value below ten.
pub open spec fn spec_digit(n: nat) -> Seq<char> {
    if n == 0 {
        "0"@
    } else if n == 1 {
        "1"@
    } else if n == 2 {
        "2"@
    } else if n == 3 {
        "3"@
    } else if n == 4 {
        "4"@
    } else if n == 5 {
        "5"@
    } else if n == 6 {
        "6"@
    } else if n == 7 {
        "7"@
    } else if n == 8 {
        "8"@
    } else {
        "9"@
    }
}

/// The decimal rendering of a number, most significant digit first.
pub open spec fn spec_digits(n: nat) -> Seq<char>
    decreases n,
{
    if n < 10 {
        spec_digit(n)
    } else {
        spec_digits(n / 10) + spec_digit(n % 10)
    }
}

/// What the bottom border says: the score and, when paused, an indicator.
pub open spec fn status_text(score: nat, paused: bool) -> Seq<char> {
    "\u{2501} Score: "@ + spec_digits(score) + " "@ + (if paused {
        "PAUSED "@
    } else {
        Seq::<char>::empty()
    })
}

/// The full text block for one frame: a top border, every row of cells
/// between side bars, and a bottom border embedding the status, padded out
/// to the top border's width when it is shorter.
pub open spec fn render_spec(f: Field, score: nat, paused: bool) -> Seq<char> {
    let status = status_text(score, paused);
    let inner = 2 * f.width;
    "\u{250f}"@ + double_bar(f.width as nat) + "\u{2513}\r\n"@ + render_rows(f.grid())
        + "\u{2517}"@ + status + (if status.len() <= inner {
        bar((inner - status.len()) as nat)
    } else {
        Seq::<char>::empty()
    }) + "\u{251b}"@
}

/// The glyph for one cell, as a borrowed string.
fn glyph_str(b: Block) -> (s: &'static str)
    ensures
        s@ == glyph(b),
{
    match b {
        Block::Empty => "  ",
        Block::Food => "\u{2592}\u{2592}",
        Block::Snake => "\u{2588}\u{2588}",
        Block::Wall => "\u{2588}\u{2588}",
        Block::Head(d) => match d {
            Direction::Up => "\u{2580}\u{2580}",
            Direction::Right => " \u{2590}",
            Direction::Down => "\u{2584}\u{2584}",
            Direction::Left => "\u{258c} ",
        },
    }
}

/// Format a number in decimal.
pub fn format_number(n: usize) -> (s: String)
    ensures
        s@ == spec_digits(n as nat),
    decreases n,
{
    if n < 10 {
        let s = match n {
            0 => "0",
            1 => "1",
            2 => "2",
            3 => "3",
            4 => "4",
            5 => "5",
            6 => "6",
            7 => "7",
            8 => "8",
            _ => "9",
        };
        s.to_owned()
    } else {
        let mut s = format_number(n / 10);
        let d = match n % 10 {
            0 => "0",
            1 => "1",
            2 => "2",
            3 => "3",
            4 => "4",
            5 => "5",
            6 => "6",
            7 => "7",
            8 => "8",
            _ => "9",
        };
        s.append(d);
        s
    }
}

impl Field {
    /// Render one frame of the field as plain text: the pure part of drawing,
    /// with the actual terminal write left to the caller.
    pub fn render(&self, score: usize, paused: bool) -> (out: String)
        requires
            self.wf(),
        ensures
            out@ == render_spec(*self, score as nat, paused),
    {
        let ghost rows = self.grid();
        let mut out: String = "\u{250f}".to_owned();
        let mut i: usize = 0;
        while i < self.width
            invariant
                self.wf(),
                i <= self.width,
                out@ == "\u{250f}"@ + double_bar(i as nat),
            decreases self.width - i,
        {
            out.append("\u{2501}\u{2501}");
            i = i + 1;
        }
        out.append("\u{2513}\r\n");
        let ghost top = "\u{250f}"@ + double_bar(self.width as nat) + "\u{2513}\r\n"@;
        proof {
            assert(out@ =~= top);
        }
        let mut y: usize = 0;
        while y < self.height
            invariant
                self.wf(),
                y <= self.height,
                rows == self.grid(),
                top == "\u{250f}"@ + double_bar(self.width as nat) + "\u{2513}\r\n"@,
                out@ == top + render_rows(rows.take(y as int)),
            decreases self.height - y,
        {
            out.append("\u{2503}");
            let ghost row = rows[y as int];
            let ghost pre_row = top + render_rows(rows.take(y as int)) + "\u{2503}"@;
            proof {
                assert(out@ =~= pre_row + render_row(row.take(0)));
            }
            let mut x: usize = 0;
            while x < self.width
                invariant
                    self.wf(),
                    y < self.height,
                    x <= self.width,
                    rows == self.grid(),
                    row == rows[y as int],
                    out@ == pre_row + render_row(row.take(x as int)),
                decreases self.width - x,
            {
                let p = Position { x: x as isize, y: y as isize };
                let b = self.get_position(&p);
                out.append(glyph_str(b));
                proof {
                    assert(row.take(x as int + 1).drop_last() =~= row.take(x as int));
                    assert(row.take(x as int + 1).last() == row[x as int]);
                    assert(row[x as int] == self.cell(p));
                    assert(out@ =~= pre_row + render_row(row.take(x as int + 1)));
                }
                x = x + 1;
            }
            out.append("\u{2503}\r\n");
            proof {
                assert(row.take(self.width as int) =~= row);
                assert(rows.take(y as int + 1).drop_last() =~= rows.take(y as int));
                assert(rows.take(y as int + 1).last() == row);
                assert(out@ =~= top + render_rows(rows.take(y as int + 1)));
            }
            y = y + 1;
        }
        proof {
            assert(rows.take(self.height as int) =~= rows);
        }
        let ghost body = top + render_rows(rows);
        out.append("\u{2517}");
        out.append("\u{2501} Score: ");
        let digits = format_number(score);
        out.append(digits.as_str());
        out.append(" ");
        if paused {
            out.append("PAUSED ");
        }
        let ghost status = status_text(score as nat, paused);
        proof {
            assert(out@ =~= body + "\u{2517}"@ + status);
        }
        proof {
            lemma_digits_len(score as nat);
        }
        let dl = digits.as_str().unicode_len();
        let base: usize = if paused {
            17
        } else {
            10
        };
        let status_len = base + dl;
        proof {
            reveal_strlit("\u{2501} Score: ");
            reveal_strlit(" ");
            reveal_strlit("PAUSED ");
            assert(status.len() == status_len);
        }
        let inner = 2 * self.width;
        if status_len <= inner {
            let pad = inner - status_len;
            proof {
                assert(out@ =~= body + "\u{2517}"@ + status + bar(0nat));
            }
            let mut k: usize = 0;
            while k < pad
                invariant
                    k <= pad,
                    out@ == body + "\u{2517}"@ + status + bar(k as nat),
                decreases pad - k,
            {
                out.append("\u{2501}");
                k = k + 1;
            }
        }
        out.append("\u{251b}");
        proof {
            assert(out@ =~= render_spec(*self, score as nat, paused));
        }
        out
    }
}

/// A single decimal digit renders as exactly one character.
proof fn lemma_digit_len(n: nat)
    ensures
        spec_digit(n).len() == 1,
{
    reveal_strlit("0");
    reveal_strlit("1");
    reveal_strlit("2");
    reveal_strlit("3");
    reveal_strlit("4");
    reveal_strlit("5");
    reveal_strlit("6");
    reveal_strlit("7");
    reveal_strlit("8");
    reveal_strlit("9");
}

/// A decimal rendering has at least one and at most twenty digits for any
/// machine-word value.
pub proof fn lemma_digits_len(n: nat)
    requires
        n <= u64::MAX,
    ensures
        1 <= spec_digits(n).len() <= 20,
{
    if n < 10 {
        lemma_digit_len(n);
    } else {
        lemma_digit_len(n % 10);
    }
    reveal_with_fuel(pow10, 21);
    assert(n < pow10(20));
    lemma_digits_bound(n, 20);
}

/// Below ten to the `k` a number renders in at most `k` digits.
proof fn lemma_digits_bound(n: nat, k: nat)
    requires
        1 <= k,
        n < pow10(k),
    ensures
        spec_digits(n).len() <= k,
    decreases n,
{
    lemma_digit_len(n % 10);
    lemma_digit_len(n);
    if n >= 10 {
        assert(pow10(k) == 10 * pow10((k - 1) as nat));
        assert(n / 10 < pow10((k - 1) as nat)) by (nonlinear_arith)
            requires
                n < 10 * pow10((k - 1) as nat),
                n >= 10,
        ;
        assert(pow10(0nat) == 1);
        if k == 1 {
            assert(pow10(1nat) == 10);
        }
        lemma_digits_bound(n / 10, (k - 1) as nat);
    }
}

/// Ten to the `k`.
pub open spec fn pow10(k: nat) -> nat
    decreases k,
{
    if k == 0 {
        1
    } else {
        10 * pow10((k - 1) as nat)
    }
}

} // verus!
