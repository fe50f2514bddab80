//! Plain-text tables with left-aligned columns.
use vstd::prelude::*;

use crate::text::{chars_of, push_char, push_str, views};
use vstd::utf8::encode_utf8;

verus! {

broadcast use vstd::string::group_string_axioms;

/// A table: a header row and rows of the same width.
#[derive(Debug)]
pub struct Table {
    headers: Vec<String>,
    rows: Vec<Vec<String>>,
}

/// The length in bytes of a string (`str::len`).
pub open spec fn byte_len(s: Seq<char>) -> nat {
    encode_utf8(s).len()
}

/// The wider of two widths.
pub open spec fn max_nat(a: nat, b: nat) -> nat {
    if a < b {
        b
    } else {
        a
    }
}

/// The width of column `j` over the header and the first `n` rows: the largest
/// length in bytes of a cell in it.
pub open spec fn column_width(
    headers: Seq<Seq<char>>,
    rows: Seq<Seq<Seq<char>>>,
    j: int,
    n: int,
) -> nat
    decreases n,
{
    if n <= 0 {
        byte_len(headers[j])
    } else {
        max_nat(column_width(headers, rows, j, n - 1), byte_len(rows[n - 1][j]))
    }
}

/// `n` copies of `c`.
pub open spec fn repeat(c: char, n: nat) -> Seq<char> {
    Seq::new(n, |i: int| c)
}

/// `s` padded on the right with spaces to `width` characters (`{:<width$}`).
pub open spec fn pad(s: Seq<char>, width: nat) -> Seq<char> {
    if s.len() < width {
        s + repeat(' ', (width - s.len()) as nat)
    } else {
        s
    }
}

/// One line: the cells padded to the widths, two spaces apart.
pub open spec fn line(cells: Seq<Seq<char>>, widths: Seq<nat>) -> Seq<char> {
    crate::text::join(
        Seq::new(cells.len(), |k: int| pad(cells[k], widths[k])),
        "  "@,
    ).push('\n')
}

/// The rule under the header: a run of dashes per column.
pub open spec fn rule(widths: Seq<nat>) -> Seq<char> {
    crate::text::join(Seq::new(widths.len(), |k: int| repeat('-', widths[k])), "  "@).push('\n')
}

/// The lines of the first `n` rows.
pub open spec fn row_lines(rows: Seq<Seq<Seq<char>>>, widths: Seq<nat>, n: int) -> Seq<char>
    decreases n,
{
    if n <= 0 {
        Seq::empty()
    } else {
        row_lines(rows, widths, n - 1) + line(rows[n - 1], widths)
    }
}

impl Table {
    /// Every row is as wide as the header.
    pub closed spec fn wf(&self) -> bool {
        forall|r: int| 0 <= r < self.rows@.len() ==> #[trigger] self.rows@[r].len() == self.headers.len()
    }

    /// The header cells.
    pub closed spec fn header_cells(&self) -> Seq<Seq<char>> {
        views(self.headers@)
    }

    /// The cells of every row.
    pub closed spec fn row_cells(&self) -> Seq<Seq<Seq<char>>> {
        self.rows@.map_values(|r: Vec<String>| views(r@))
    }

    /// The width of every column.
    pub open spec fn widths_spec(&self) -> Seq<nat> {
        Seq::new(
            self.header_cells().len(),
            |j: int| column_width(self.header_cells(), self.row_cells(), j, self.row_cells().len() as int),
        )
    }

    /// The whole table as text: the header, the rule, then every row.
    pub open spec fn text(&self) -> Seq<char> {
        line(self.header_cells(), self.widths_spec()) + rule(self.widths_spec()) + row_lines(
            self.row_cells(),
            self.widths_spec(),
            self.row_cells().len() as int,
        )
    }

    /// A table with the given header and no rows.
    pub fn new(headers: Vec<String>) -> (t: Table)
        ensures
            t.wf(),
            t.header_cells() == views(headers@),
            t.row_cells() == Seq::<Seq<Seq<char>>>::empty(),
    {
        let t = Table { headers, rows: Vec::new() };
        assert(t.row_cells() =~= Seq::<Seq<Seq<char>>>::empty());
        t
    }

    /// Appends a row, which must be as wide as the header.
    pub fn push_row(&mut self, row: Vec<String>)
        requires
            old(self).wf(),
            row.len() == old(self).header_cells().len(),
        ensures
            final(self).wf(),
            final(self).header_cells() == old(self).header_cells(),
            final(self).row_cells() == old(self).row_cells().push(views(row@)),
    {
        let ghost before = self.rows@;
        self.rows.push(row);
        assert(self.rows@.map_values(|r: Vec<String>| views(r@)) =~= before.map_values(
            |r: Vec<String>| views(r@),
        ).push(views(row@)));
    }

    /// The width of every column: the largest length in bytes of its cells.
    fn widths(&self) -> (w: Vec<usize>)
        requires
            self.wf(),
        ensures
            w@.len() == self.header_cells().len(),
            forall|j: int| 0 <= j < w@.len() ==> w@[j] as nat == #[trigger] self.widths_spec()[j],
    {
        let ghost h = self.header_cells();
        let ghost rs = self.row_cells();
        let mut w: Vec<usize> = Vec::new();
        let mut j: usize = 0;
        while j < self.headers.len()
            invariant
                h == self.header_cells(),
                rs == self.row_cells(),
                h.len() == self.headers.len(),
                rs.len() == self.rows.len(),
                forall|r: int| 0 <= r < self.rows@.len() ==> #[trigger] self.rows@[r].len() == self.headers.len(),
                j <= self.headers.len(),
                w@.len() == j,
                forall|k: int| 0 <= k < j ==> w@[k] as nat == #[trigger] column_width(h, rs, k, rs.len() as int),
            decreases self.headers.len() - j,
        {
            let mut width = self.headers[j].as_str().as_bytes().len();
            assert(h[j as int] == self.headers@[j as int]@);
            let mut r: usize = 0;
            while r < self.rows.len()
                invariant
                    h == self.header_cells(),
                    rs == self.row_cells(),
                    rs.len() == self.rows.len(),
                    forall|q: int| 0 <= q < self.rows@.len() ==> #[trigger] self.rows@[q].len() == self.headers.len(),
                    j < self.headers.len(),
                    r <= self.rows.len(),
                    width as nat == column_width(h, rs, j as int, r as int),
                decreases self.rows.len() - r,
            {
                assert(self.rows@[r as int].len() == self.headers.len());
                let cell = self.rows[r][j].as_str();
                let n = cell.as_bytes().len();
                assert(rs[r as int][j as int] == self.rows@[r as int]@[j as int]@);
                if n > width {
                    width = n;
                }
                r += 1;
            }
            w.push(width);
            j += 1;
        }
        w
    }

    /// The table as text, every column left-aligned to its width.
    pub fn render(&self) -> (s: String)
        requires
            self.wf(),
        ensures
            s@ == self.text(),
    {
        let widths = self.widths();
        let ghost ws = self.widths_spec();
        assert(ws.len() == widths@.len());
        assert(widths@.map_values(|w: usize| w as nat) =~= ws);
        let mut s = String::new();
        push_line(&mut s, &self.headers, &widths);
        // The rule under the header.
        let mut k: usize = 0;
        let ghost start = s@;
        while k < widths.len()
            invariant
                k <= widths.len(),
                ws == self.widths_spec(),
                ws.len() == widths@.len(),
                forall|j: int| 0 <= j < widths@.len() ==> widths@[j] as nat == #[trigger] ws[j],
                s@ == start + crate::text::join(
                    Seq::new(k as nat, |i: int| repeat('-', ws[i])),
                    "  "@,
                ),
            decreases widths.len() - k,
        {
            let ghost before = s@;
            if k > 0 {
                push_str(&mut s, "  ");
            }
            let mut d: usize = 0;
            while d < widths[k]
                invariant
                    k < widths.len(),
                    d <= widths@[k as int],
                    s@ == before + (if k > 0 { "  "@ } else { Seq::empty() }) + repeat('-', d as nat),
                decreases widths@[k as int] - d,
            {
                push_char(&mut s, '-');
                d += 1;
                assert(repeat('-', d as nat) =~= repeat('-', (d - 1) as nat).push('-'));
            }
            proof {
                let parts = Seq::new((k + 1) as nat, |i: int| repeat('-', ws[i]));
                assert(parts.drop_last() =~= Seq::new(k as nat, |i: int| repeat('-', ws[i])));
                if k == 0 {
                    assert(s@ =~= start + crate::text::join(parts, "  "@));
                } else {
                    assert(s@ =~= start + crate::text::join(parts, "  "@));
                }
            }
            k += 1;
        }
        push_char(&mut s, '\n');
        proof {
            assert(Seq::new(widths.len() as nat, |i: int| repeat('-', ws[i])) =~= Seq::new(
                ws.len(),
                |i: int| repeat('-', ws[i]),
            ));
        }
        let ghost head = s@;
        let mut r: usize = 0;
        while r < self.rows.len()
            invariant
                r <= self.rows.len(),
                ws == self.widths_spec(),
                ws.len() == widths@.len(),
                widths@.len() == self.headers.len(),
                forall|j: int| 0 <= j < widths@.len() ==> widths@[j] as nat == #[trigger] ws[j],
                self.row_cells().len() == self.rows@.len(),
                forall|q: int| 0 <= q < self.rows@.len() ==> #[trigger] self.rows@[q].len() == self.headers.len(),
                s@ == head + row_lines(self.row_cells(), ws, r as int),
            decreases self.rows.len() - r,
        {
            assert(self.rows@[r as int].len() == self.headers.len());
            push_line(&mut s, &self.rows[r], &widths);
            proof {
                assert(widths@.map_values(|w: usize| w as nat) =~= ws);
                assert(self.row_cells()[r as int] == views(self.rows@[r as int]@));
            }
            r += 1;
        }
        s
    }
}

/// Appends one line: the cells padded to the widths, two spaces apart.
fn push_line(s: &mut String, cells: &Vec<String>, widths: &Vec<usize>)
    requires
        cells.len() == widths.len(),
    ensures
        final(s)@ == old(s)@ + line(views(cells@), widths@.map_values(|w: usize| w as nat)),
{
    let ghost ws = widths@.map_values(|w: usize| w as nat);
    let ghost cs = views(cells@);
    let ghost start = s@;
    let mut k: usize = 0;
    while k < cells.len()
        invariant
            cells.len() == widths.len(),
            ws == widths@.map_values(|w: usize| w as nat),
            cs == views(cells@),
            k <= cells.len(),
            s@ == start + crate::text::join(Seq::new(k as nat, |i: int| pad(cs[i], ws[i])), "  "@),
        decreases cells.len() - k,
    {
        let ghost before = s@;
        if k > 0 {
            push_str(s, "  ");
        }
        let cell = cells[k].as_str();
        push_str(s, cell);
        let count = chars_of(cell).len();
        let mut d: usize = count;
        while d < widths[k]
            invariant
                k < cells.len(),
                cells.len() == widths.len(),
                count == cell@.len(),
                count <= d,
                d <= widths@[k as int] || d == count,
                s@ == before + (if k > 0 { "  "@ } else { Seq::empty() }) + cell@ + repeat(
                    ' ',
                    (d - count) as nat,
                ),
            decreases widths@[k as int] - d,
        {
            push_char(s, ' ');
            d += 1;
            assert(repeat(' ', (d - count) as nat) =~= repeat(' ', (d - 1 - count) as nat).push(' '));
        }
        proof {
            let parts = Seq::new((k + 1) as nat, |i: int| pad(cs[i], ws[i]));
            assert(parts.drop_last() =~= Seq::new(k as nat, |i: int| pad(cs[i], ws[i])));
            assert(cs[k as int] == cell@);
            assert(ws[k as int] == widths@[k as int] as nat);
            if count < widths@[k as int] {
                assert(pad(cs[k as int], ws[k as int]) =~= cell@ + repeat(' ', (d - count) as nat));
            } else {
                assert(repeat(' ', 0) =~= Seq::<char>::empty());
                assert(pad(cs[k as int], ws[k as int]) =~= cell@ + repeat(' ', (d - count) as nat));
            }
            if k == 0 {
                assert(before =~= start);
                assert(s@ =~= start + crate::text::join(parts, "  "@));
            } else {
                assert(s@ =~= start + crate::text::join(parts, "  "@));
            }
        }
        k += 1;
    }
    push_char(s, '\n');
    proof {
        assert(Seq::new(cells.len() as nat, |i: int| pad(cs[i], ws[i])) =~= Seq::new(
            cs.len(),
            |i: int| pad(cs[i], ws[i]),
        ));
    }
}

} // verus!
