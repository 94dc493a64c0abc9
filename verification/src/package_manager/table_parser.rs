//! Tables printed with a header line, a rule of dashes below it, and rows
//! whose columns start where the header's words start.
use vstd::prelude::*;

use crate::models::diff_result::strings_view;
use crate::text::{chars_of, starts_with, string_of, trim, trim_bounds};

verus! {

/// Why a table could not be read.
#[derive(Debug, Clone, Copy, PartialEq, Eq, Structural)]
pub enum TableError {
    /// No header line followed by a rule of dashes was found.
    InvalidOutput,
}

impl TableError {
    /// The message the error is reported with.
    pub fn message(&self) -> (m: String)
        ensures
            m@ == "Invalid output"@,
    {
        "Invalid output".to_owned()
    }
}

/// Position `k` of the header starts a word: a non-space right after a
/// space or at the start.
pub open spec fn is_column_start(t: Seq<char>, k: int) -> bool {
    t[k] != ' ' && (k == 0 || t[k - 1] == ' ')
}

/// The word starts among the first `n` positions of the header, in order.
pub open spec fn starts_upto(t: Seq<char>, n: int) -> Seq<int>
    decreases n,
{
    if n <= 0 {
        seq![]
    } else {
        let prev = starts_upto(t, n - 1);
        if is_column_start(t, n - 1) {
            prev.push(n - 1)
        } else {
            prev
        }
    }
}

/// The character positions where the header's words start.
pub open spec fn column_starts(t: Seq<char>) -> Seq<int> {
    starts_upto(t, t.len() as int)
}

pub proof fn lemma_starts_increasing(t: Seq<char>, n: int)
    requires
        0 <= n <= t.len(),
    ensures
        forall|i: int, j: int|
            0 <= i < j < starts_upto(t, n).len() ==> #[trigger] starts_upto(t, n)[i] < #[trigger] starts_upto(
                t,
                n,
            )[j],
        forall|i: int| 0 <= i < starts_upto(t, n).len() ==> 0 <= #[trigger] starts_upto(t, n)[i] < n,
        starts_upto(t, n).len() <= n,
    decreases n,
{
    if n > 0 {
        lemma_starts_increasing(t, n - 1);
    }
}

/// Where a row's `i`-th cell begins: its column's start, clamped to the row.
pub open spec fn cell_start(cs: Seq<int>, len: int, i: int) -> int {
    if cs[i] < len {
        cs[i]
    } else {
        len
    }
}

/// Where a row's `i`-th cell ends: the next column's start, clamped to the
/// row, or the row's end for the last column.
pub open spec fn cell_end(cs: Seq<int>, len: int, i: int) -> int {
    if i + 1 < cs.len() {
        cell_start(cs, len, i + 1)
    } else {
        len
    }
}

/// A row's `i`-th cell, trimmed; empty when the row ends before the column.
pub open spec fn cell(cs: Seq<int>, row: Seq<char>, i: int) -> Seq<char> {
    let s = cell_start(cs, row.len() as int, i);
    if s < row.len() {
        trim(row.subrange(s, cell_end(cs, row.len() as int, i)))
    } else {
        seq![]
    }
}

/// The cells of a row, one per column.
pub open spec fn row_cells(cs: Seq<int>, row: Seq<char>) -> Seq<Seq<char>> {
    Seq::new(cs.len(), |i: int| cell(cs, row, i))
}

/// The cells of the rows, row after row.
pub open spec fn rows_cells(cs: Seq<int>, rows: Seq<Seq<char>>) -> Seq<Seq<char>>
    decreases rows.len(),
{
    if rows.len() == 0 {
        seq![]
    } else {
        rows_cells(cs, rows.drop_last()) + row_cells(cs, rows.last())
    }
}

/// The lines that are not empty, in order.
pub open spec fn nonempty_lines(ls: Seq<Seq<char>>) -> Seq<Seq<char>>
    decreases ls.len(),
{
    if ls.len() == 0 {
        seq![]
    } else {
        let prev = nonempty_lines(ls.drop_last());
        if ls.last().len() > 0 {
            prev.push(ls.last())
        } else {
            prev
        }
    }
}

/// The first line at or after `i` that starts with `--`, or -1.
pub open spec fn rule_index(ls: Seq<Seq<char>>, i: int) -> int
    decreases ls.len() - i,
{
    if i < 0 || i >= ls.len() {
        -1
    } else if starts_with(ls[i], "--"@) {
        i
    } else {
        rule_index(ls, i + 1)
    }
}

/// The table in the lines: empty lines are ignored; the header is the line
/// just above the first rule of dashes after the first line; the rows are
/// the lines below the rule. The result is the number of columns and the
/// cells, header first, row by row.
pub open spec fn table_of(ls: Seq<Seq<char>>) -> Option<(int, Seq<Seq<char>>)> {
    let ne = nonempty_lines(ls);
    let j = rule_index(ne, 1);
    if j < 1 {
        None
    } else {
        let cs = column_starts(ne[j - 1]);
        Some((cs.len() as int, row_cells(cs, ne[j - 1]) + rows_cells(cs, ne.skip(j + 1))))
    }
}

pub proof fn lemma_rule_index(ls: Seq<Seq<char>>, i: int)
    requires
        0 <= i,
    ensures
        -1 <= rule_index(ls, i) < ls.len(),
        rule_index(ls, i) >= 0 ==> i <= rule_index(ls, i),
    decreases ls.len() - i,
{
    if i < ls.len() {
        lemma_rule_index(ls, i + 1);
    }
}

fn parse_header(t: &Vec<char>) -> (r: Vec<usize>)
    ensures
        r@.len() == column_starts(t@).len(),
        forall|i: int| 0 <= i < r@.len() ==> r@[i] as int == #[trigger] column_starts(t@)[i],
{
    let mut r: Vec<usize> = Vec::new();
    let mut in_word = false;
    let mut k: usize = 0;
    while k < t.len()
        invariant
            k <= t@.len(),
            in_word == (k > 0 && t@[k - 1] != ' '),
            r@.len() == starts_upto(t@, k as int).len(),
            forall|i: int| 0 <= i < r@.len() ==> r@[i] as int == #[trigger] starts_upto(t@, k as int)[i],
        decreases t.len() - k,
    {
        let ghost r0 = r@;
        if t[k] == ' ' {
            in_word = false;
        } else if !in_word {
            r.push(k);
            in_word = true;
        }
        assert forall|i: int| 0 <= i < r@.len() implies r@[i] as int == #[trigger] starts_upto(t@, k + 1)[i] by {
            if i < r0.len() {
                assert(r@[i] == r0[i]);
            }
        }
        k = k + 1;
    }
    r
}

/// The cells of one row.
fn parse_entry(cs: &Vec<usize>, row: &Vec<char>, out: &mut Vec<String>)
    requires
        forall|i: int, j: int| 0 <= i < j < cs@.len() ==> cs@[i] < cs@[j],
    ensures
        strings_view(final(out)@) == strings_view(old(out)@) + row_cells(
            cs@.map_values(|x: usize| x as int),
            row@,
        ),
{
    let ghost csi = cs@.map_values(|x: usize| x as int);
    let n = row.len();
    let mut i: usize = 0;
    assert(row_cells(csi, row@).take(0) == Seq::<Seq<char>>::empty());
    assert(strings_view(old(out)@) + Seq::<Seq<char>>::empty() == strings_view(old(out)@));
    while i < cs.len()
        invariant
            i <= cs@.len(),
            n == row@.len(),
            csi == cs@.map_values(|x: usize| x as int),
            forall|a: int, b: int| 0 <= a < b < cs@.len() ==> cs@[a] < cs@[b],
            strings_view(out@) == strings_view(old(out)@) + row_cells(csi, row@).take(i as int),
        decreases cs.len() - i,
    {
        let s = if cs[i] < n {
            cs[i]
        } else {
            n
        };
        let e = if i + 1 < cs.len() {
            if cs[i + 1] < n {
                cs[i + 1]
            } else {
                n
            }
        } else {
            n
        };
        assert(s as int == cell_start(csi, n as int, i as int));
        assert(e as int == cell_end(csi, n as int, i as int));
        let c = if s < n {
            let (a, b) = trim_bounds(row, s, e);
            string_of(row, a, b)
        } else {
            String::new()
        };
        assert(c@ == cell(csi, row@, i as int));
        let ghost o0 = out@;
        out.push(c);
        assert(row_cells(csi, row@).take(i + 1) == row_cells(csi, row@).take(i as int).push(
            cell(csi, row@, i as int),
        ));
        assert(strings_view(out@) =~= strings_view(o0).push(c@));
        i = i + 1;
    }
    assert(row_cells(csi, row@).take(cs@.len() as int) == row_cells(csi, row@));
}

/// Reads a table from its lines: the number of columns and the cells,
/// header first, row by row.
pub fn parse_table(lines: &[&str]) -> (r: Result<(usize, Vec<String>), TableError>)
    ensures
        match r {
            Ok((n, cells)) => table_of(lines@.map_values(|l: &str| l@)) == Some(
                (n as int, strings_view(cells@)),
            ),
            Err(_) => table_of(lines@.map_values(|l: &str| l@)) is None,
        },
{
    let ghost ls = lines@.map_values(|l: &str| l@);
    let mut ne: Vec<Vec<char>> = Vec::new();
    let mut i: usize = 0;
    assert(ls.take(0) == Seq::<Seq<char>>::empty());
    while i < lines.len()
        invariant
            i <= lines@.len(),
            ls == lines@.map_values(|l: &str| l@),
            ne@.map_values(|v: Vec<char>| v@) == nonempty_lines(ls.take(i as int)),
        decreases lines.len() - i,
    {
        assert(ls.take(i + 1).drop_last() == ls.take(i as int));
        assert(ls.take(i + 1).last() == lines@[i as int]@);
        let v = chars_of(lines[i]);
        let ghost n0 = ne@;
        if v.len() > 0 {
            ne.push(v);
            assert(ne@.map_values(|v: Vec<char>| v@) =~= n0.map_values(|v: Vec<char>| v@).push(
                lines@[i as int]@,
            ));
        }
        i = i + 1;
    }
    assert(ls.take(lines@.len() as int) == ls);
    let ghost nev = ne@.map_values(|v: Vec<char>| v@);
    assert(nev == nonempty_lines(ls));
    proof {
        lemma_rule_index(nev, 1);
        reveal_strlit("--");
    }
    let dashes = chars_of("--");
    let mut j: usize = 1;
    loop
        invariant
            1 <= j,
            nev == ne@.map_values(|v: Vec<char>| v@),
            dashes@ == "--"@,
            nev == nonempty_lines(lines@.map_values(|l: &str| l@)),
            rule_index(nev, 1) == rule_index(nev, j as int),
        ensures
            1 <= j < ne@.len(),
            rule_index(nev, 1) == j,
        decreases ne@.len() - j,
    {
        if j >= ne.len() {
            assert(rule_index(nev, j as int) == -1);
            assert(table_of(lines@.map_values(|l: &str| l@)) is None);
            return Err(TableError::InvalidOutput);
        }
        assert(nev[j as int] == ne@[j as int]@);
        let ghost lj = ne@[j as int]@;
        assert(ne[j as int]@.subrange(0, lj.len() as int) == lj);
        if crate::text::range_starts_with(&ne[j], 0, ne[j].len(), &dashes) {
            assert(starts_with(nev[j as int], "--"@));
            break;
        }
        j = j + 1;
    }
    let header = &ne[j - 1];
    assert(nev[j - 1] == header@);
    let cs = parse_header(header);
    let ghost csi = cs@.map_values(|x: usize| x as int);
    assert(csi =~= column_starts(header@));
    proof {
        lemma_starts_increasing(header@, header@.len() as int);
        assert forall|a: int, b: int| 0 <= a < b < cs@.len() implies cs@[a] < cs@[b] by {
            assert(csi[a] == cs@[a] as int);
            assert(csi[b] == cs@[b] as int);
        }
    }
    let mut cells: Vec<String> = Vec::new();
    assert(strings_view(cells@) =~= Seq::<Seq<char>>::empty());
    parse_entry(&cs, header, &mut cells);
    assert(Seq::<Seq<char>>::empty() + row_cells(csi, header@) == row_cells(csi, header@));
    let ghost rows = nev.skip(j + 1);
    let mut k: usize = j + 1;
    assert(rows.take(0) == Seq::<Seq<char>>::empty());
    assert(row_cells(csi, header@) + Seq::<Seq<char>>::empty() == row_cells(csi, header@));
    while k < ne.len()
        invariant
            j + 1 <= k <= ne@.len(),
            nev == ne@.map_values(|v: Vec<char>| v@),
            rows == nev.skip(j + 1),
            csi == cs@.map_values(|x: usize| x as int),
            forall|a: int, b: int| 0 <= a < b < cs@.len() ==> cs@[a] < cs@[b],
            strings_view(cells@) == row_cells(csi, header@) + rows_cells(
                csi,
                rows.take(k - (j + 1)),
            ),
        decreases ne.len() - k,
    {
        let ghost c0 = strings_view(cells@);
        parse_entry(&cs, &ne[k], &mut cells);
        assert(rows.take(k + 1 - (j + 1)).drop_last() == rows.take(k - (j + 1)));
        assert(rows.take(k + 1 - (j + 1)).last() == ne@[k as int]@);
        assert(c0 + row_cells(csi, ne@[k as int]@) == row_cells(csi, header@) + rows_cells(
            csi,
            rows.take(k + 1 - (j + 1)),
        ));
        k = k + 1;
    }
    assert(rows.take(ne@.len() - (j + 1)) == rows);
    Ok((cs.len(), cells))
}

} // verus!
