//! Text layout of a matrix from the texts of its entries.

use vstd::prelude::*;
use vstd::string::*;
use crate::matrix::lemma_offset;

verus! {

/// Text of the entry in column `x`, row `y` of a column-major grid of height `h`.
pub open spec fn cell_text(cells: Seq<String>, h: nat, x: int, y: int) -> Seq<char> {
    cells[x * h + y]@
}

/// Widest text among the first `k` entries of column `x`, in characters.
pub open spec fn column_width(cells: Seq<String>, h: nat, x: int, k: nat) -> nat
    decreases k,
{
    if k == 0 {
        0
    } else {
        let m = column_width(cells, h, x, (k - 1) as nat);
        let l = cell_text(cells, h, x, k - 1).len();
        if l > m {
            l
        } else {
            m
        }
    }
}

pub open spec fn spaces(n: int) -> Seq<char> {
    Seq::new(if n > 0 { n as nat } else { 0 }, |i: int| ' ')
}

/// `s` right-aligned in a field of `w` characters.
pub open spec fn padded(s: Seq<char>, w: nat) -> Seq<char> {
    spaces(w - s.len()) + s
}

/// The first `k` entries of row `y`, each right-aligned to its column's width,
/// separated by two spaces.
pub open spec fn row_text(cells: Seq<String>, h: nat, y: int, k: nat) -> Seq<char>
    decreases k,
{
    if k == 0 {
        Seq::empty()
    } else {
        let c = padded(cell_text(cells, h, k - 1, y), column_width(cells, h, k - 1, h));
        if k == 1 {
            c
        } else {
            row_text(cells, h, y, (k - 1) as nat) + seq![' ', ' '] + c
        }
    }
}

pub open spec fn open_glyph(y: int, h: nat) -> char {
    if y == 0 {
        '\u{23a1}'
    } else if y == h - 1 {
        '\u{23a3}'
    } else {
        '\u{23a2}'
    }
}

pub open spec fn close_glyph(y: int, h: nat) -> char {
    if y == 0 {
        '\u{23a4}'
    } else if y == h - 1 {
        '\u{23a6}'
    } else {
        '\u{23a2}'
    }
}

/// Row `y` between its bracket glyphs.
pub open spec fn line(cells: Seq<String>, w: nat, h: nat, y: int) -> Seq<char> {
    seq![open_glyph(y, h), ' '] + row_text(cells, h, y, w) + seq![' ', close_glyph(y, h)]
}

/// The first `k` rows, separated by newlines.
pub open spec fn lines(cells: Seq<String>, w: nat, h: nat, k: nat) -> Seq<char>
    decreases k,
{
    if k == 0 {
        Seq::empty()
    } else if k == 1 {
        line(cells, w, h, 0)
    } else {
        lines(cells, w, h, (k - 1) as nat) + seq!['\n'] + line(cells, w, h, k - 1)
    }
}

/// Lays out a `width` by `height` grid of entry texts, given column by column,
/// as a bracketed block: `⎡ ⎤` around the first row, `⎣ ⎦` around the last,
/// `⎢ ⎢` around the others, each column right-aligned to its widest entry, two
/// spaces between columns, and no newline after the last row.
pub fn layout(cells: &Vec<String>, width: usize, height: usize) -> (r: String)
    requires
        cells@.len() == width * height,
    ensures
        r@ == lines(cells@, width as nat, height as nat, height as nat),
{
    let count = cells.len();
    let mut widths: Vec<usize> = Vec::new();
    let mut x: usize = 0;
    while x < width
        invariant
            cells@.len() == width * height,
            count == width * height,
            x <= width,
            widths@.len() == x,
            forall|i: int| 0 <= i < x ==> #[trigger] widths@[i] == column_width(cells@, height as nat, i, height as nat),
        decreases width - x,
    {
        let mut m: usize = 0;
        let mut y: usize = 0;
        while y < height
            invariant
                cells@.len() == width * height,
                count == width * height,
                x < width,
                y <= height,
                m == column_width(cells@, height as nat, x as int, y as nat),
            decreases height - y,
        {
            proof {
                lemma_offset(x as int, y as int, width as int, height as int);
            }
            let l = cells[x * height + y].as_str().unicode_len();
            if l > m {
                m = l;
            }
            y = y + 1;
        }
        widths.push(m);
        x = x + 1;
    }
    let mut out = String::new();
    let mut y: usize = 0;
    while y < height
        invariant
            cells@.len() == width * height,
            count == width * height,
            y <= height,
            widths@.len() == width,
            forall|i: int| 0 <= i < width ==> #[trigger] widths@[i] == column_width(cells@, height as nat, i, height as nat),
            out@ == lines(cells@, width as nat, height as nat, y as nat),
        decreases height - y,
    {
        let ghost done = out@;
        proof {
            reveal_strlit("\n");
            reveal_strlit("  ");
            reveal_strlit(" ");
            reveal_strlit("\u{23a1} ");
            reveal_strlit("\u{23a3} ");
            reveal_strlit("\u{23a2} ");
            reveal_strlit(" \u{23a4}");
            reveal_strlit(" \u{23a6}");
            reveal_strlit(" \u{23a2}");
        }
        if y > 0 {
            out.append("\n");
        }
        let ghost start = out@;
        if y == 0 {
            out.append("\u{23a1} ");
        } else if y == height - 1 {
            out.append("\u{23a3} ");
        } else {
            out.append("\u{23a2} ");
        }
        assert(out@ =~= start + seq![open_glyph(y as int, height as nat), ' ']);
        let mut x: usize = 0;
        while x < width
            invariant
                cells@.len() == width * height,
                count == width * height,
                y < height,
                x <= width,
                widths@.len() == width,
                forall|i: int| 0 <= i < width ==> #[trigger] widths@[i] == column_width(cells@, height as nat, i, height as nat),
                out@ == start + seq![open_glyph(y as int, height as nat), ' '] + row_text(cells@, height as nat, y as int, x as nat),
            decreases width - x,
        {
            let ghost before = out@;
            proof {
                reveal_strlit("  ");
                reveal_strlit(" ");
            }
            if x > 0 {
                out.append("  ");
            }
            let ghost sep = out@;
            proof {
                lemma_offset(x as int, y as int, width as int, height as int);
            }
            let cell = cells[x * height + y].as_str();
            let l = cell.unicode_len();
            let w = widths[x];
            let mut p: usize = l;
            while p < w
                invariant
                    l <= p <= w || (w < l && p == l),
                    l == cell@.len(),
                    out@ == sep + spaces(p - l),
                decreases w - p,
            {
                proof {
                    reveal_strlit(" ");
                }
                out.append(" ");
                p = p + 1;
                assert(out@ =~= sep + spaces(p - l));
            }
            assert(spaces(p - l) =~= spaces(w - cell@.len()));
            out.append(cell);
            x = x + 1;
            proof {
                let c = padded(cell_text(cells@, height as nat, x - 1, y as int), column_width(cells@, height as nat, x - 1, height as nat));
                assert(cell_text(cells@, height as nat, x - 1, y as int) == cell@);
                if x == 1 {
                    assert(out@ =~= start + seq![open_glyph(y as int, height as nat), ' '] + c);
                } else {
                    assert(out@ =~= before + seq![' ', ' '] + c);
                }
                assert(out@ =~= start + seq![open_glyph(y as int, height as nat), ' '] + row_text(cells@, height as nat, y as int, x as nat));
            }
        }
        let ghost body = out@;
        if y == 0 {
            out.append(" \u{23a4}");
        } else if y == height - 1 {
            out.append(" \u{23a6}");
        } else {
            out.append(" \u{23a2}");
        }
        assert(out@ =~= body + seq![' ', close_glyph(y as int, height as nat)]);
        y = y + 1;
        proof {
            let ln = line(cells@, width as nat, height as nat, y - 1);
            assert(out@ =~= start + ln);
            if y == 1 {
                assert(out@ =~= lines(cells@, width as nat, height as nat, 1));
            } else {
                assert(start =~= done + seq!['\n']);
                assert(out@ =~= done + seq!['\n'] + ln);
            }
        }
    }
    out
}

} // verus!
