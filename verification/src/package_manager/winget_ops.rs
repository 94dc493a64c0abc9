//! Reading what winget prints.
use vstd::prelude::*;

use crate::models::installed_packages::UpgradeInfo;
use crate::package_manager::table_parser::{parse_table, table_of, TableError};
use crate::str_map::{lemma_map_vals, map_vals, pairs_insert, string_pairs, StrMap};
use crate::text::{
    chars_of, eq_ignore_ascii_case, line_bounds, lines_of, opt_view, range_eq_ignore_ascii_case,
    string_of, token_bounds, tokens_of,
};

verus! {

/// One row of `winget list`.
#[derive(Debug, Clone)]
pub struct WingetPackageEntry {
    pub id: String,
    pub version: String,
    pub available: Option<String>,
}

pub struct WingetEntryView {
    pub id: Seq<char>,
    pub version: Seq<char>,
    pub available: Option<Seq<char>>,
}

impl View for WingetPackageEntry {
    type V = WingetEntryView;

    open spec fn view(&self) -> WingetEntryView {
        WingetEntryView { id: self.id@, version: self.version@, available: opt_view(self.available) }
    }
}

/// A row offers an upgrade when its version is known and a newer one is listed.
pub open spec fn entry_upgradable(e: WingetEntryView) -> bool {
    e.version != "Unknown"@ && e.available is Some
}

impl WingetPackageEntry {
    pub fn is_upgradable(&self) -> (b: bool)
        ensures
            b == entry_upgradable(self@),
    {
        let unknown = "Unknown".to_owned();
        !(self.version == unknown) && self.available.is_some()
    }
}

/// Why `winget list` could not be read.
#[derive(Debug, Clone)]
pub enum ListError {
    /// winget printed nothing.
    NoOutput,
    /// The output holds no table.
    Table(TableError),
    /// The table has fewer than four columns; holds the first line as read.
    InvalidHeader(Option<String>),
}

/// What follows the last carriage return of a line (the whole line when it
/// has none): progress output that winget overwrites in place drops away.
pub open spec fn after_last_cr(s: Seq<char>) -> Seq<char>
    decreases s.len(),
{
    if s.len() == 0 {
        s
    } else if s.last() == '\r' {
        seq![]
    } else {
        after_last_cr(s.drop_last()).push(s.last())
    }
}

/// The lines the table is read from: the first with what its last carriage
/// return overwrote dropped, then the others.
pub open spec fn list_lines(output: Seq<char>) -> Seq<Seq<char>> {
    let ls = lines_of(output);
    if ls.len() == 0 {
        ls
    } else {
        seq![after_last_cr(ls[0])] + ls.drop_first()
    }
}

/// The entry of one row of cells.
pub open spec fn entry_of(chunk: Seq<Seq<char>>, n: int) -> WingetEntryView {
    WingetEntryView {
        id: chunk[1],
        version: chunk[2],
        available: if n >= 5 && chunk[3].len() > 0 {
            Some(chunk[3])
        } else {
            None
        },
    }
}

/// The entries of the cells after the header, `n` per row; rows with fewer
/// than four cells are left out.
pub open spec fn entries_of(rows: Seq<Seq<char>>, n: int) -> Seq<WingetEntryView>
    decreases rows.len(),
{
    if n <= 0 || rows.len() == 0 {
        seq![]
    } else {
        let chunk = if rows.len() < n {
            rows
        } else {
            rows.take(n)
        };
        let rest = if rows.len() < n {
            seq![]
        } else {
            rows.skip(n)
        };
        if chunk.len() >= 4 {
            seq![entry_of(chunk, n)] + entries_of(rest, n)
        } else {
            entries_of(rest, n)
        }
    }
}

/// What `winget list` printed, read: no output, no table, or fewer than
/// four columns is an error; otherwise the entries of the rows.
pub open spec fn winget_list(output: Seq<char>) -> Result<Seq<WingetEntryView>, ()> {
    if output.len() == 0 {
        Err(())
    } else {
        match table_of(list_lines(output)) {
            None => Err(()),
            Some((n, cells)) => if n < 4 {
                Err(())
            } else {
                Ok(entries_of(cells.skip(n), n))
            },
        }
    }
}

/// The bounds of what follows the last carriage return in `v[lo..hi]`.
fn after_last_cr_start(v: &Vec<char>, lo: usize, hi: usize) -> (s: usize)
    requires
        lo <= hi <= v@.len(),
    ensures
        lo <= s <= hi,
        v@.subrange(s as int, hi as int) == after_last_cr(v@.subrange(lo as int, hi as int)),
{
    let mut s = hi;
    while s > lo && v[s - 1] != '\r'
        invariant
            lo <= s <= hi <= v@.len(),
            forall|k: int| s <= k < hi ==> v@[k] != '\r',
        decreases s - lo,
    {
        s = s - 1;
    }
    proof {
        lemma_after_last_cr(v@, lo as int, s as int, hi as int);
    }
    s
}

proof fn lemma_after_last_cr(v: Seq<char>, lo: int, s: int, hi: int)
    requires
        0 <= lo <= s <= hi <= v.len(),
        forall|k: int| s <= k < hi ==> v[k] != '\r',
        s == lo || v[s - 1] == '\r',
    ensures
        v.subrange(s, hi) == after_last_cr(v.subrange(lo, hi)),
    decreases hi - s,
{
    let w = v.subrange(lo, hi);
    if hi == s {
        if s > lo {
            assert(w.last() == '\r');
        }
    } else {
        lemma_after_last_cr(v, lo, s, hi - 1);
        assert(w.drop_last() == v.subrange(lo, hi - 1));
        assert(w.last() == v[hi - 1]);
        assert(v.subrange(s, hi - 1).push(v[hi - 1]) == v.subrange(s, hi));
    }
}

/// Reads the rows of `winget list`.
pub fn parse_winget_list(output: &str) -> (r: Result<Vec<WingetPackageEntry>, ListError>)
    ensures
        match r {
            Ok(es) => winget_list(output@) == Ok::<Seq<WingetEntryView>, ()>(
                es@.map_values(|e: WingetPackageEntry| e@),
            ),
            Err(_) => winget_list(output@) is Err,
        },
{
    let v = chars_of(output);
    if v.len() == 0 {
        return Err(ListError::NoOutput);
    }
    let bounds = line_bounds(&v);
    let ghost ls = lines_of(v@);
    let mut strs: Vec<String> = Vec::new();
    let mut first: Option<String> = None;
    let mut i: usize = 0;
    while i < bounds.len()
        invariant
            v@ == output@,
            ls == lines_of(v@),
            forall|k: int| 0 <= k < bounds@.len() ==> #[trigger] bounds@[k].0 <= bounds@[k].1 <= v@.len(),
            bounds@.map_values(|b: (usize, usize)| v@.subrange(b.0 as int, b.1 as int)) == ls,
            i <= bounds@.len(),
            strs@.len() == i,
            forall|k: int| 0 <= k < i ==> (#[trigger] strs@[k])@ == list_lines(output@)[k],
            i > 0 ==> first is Some && opt_view(first) == Some(list_lines(output@)[0]),
        decreases bounds.len() - i,
    {
        let (lo, hi) = bounds[i];
        assert(ls[i as int] == v@.subrange(lo as int, hi as int));
        let s = if i == 0 {
            after_last_cr_start(&v, lo, hi)
        } else {
            lo
        };
        let line = string_of(&v, s, hi);
        if i == 0 {
            first = Some(line.clone());
        }
        strs.push(line);
        i = i + 1;
    }
    let mut refs: Vec<&str> = Vec::new();
    let mut k: usize = 0;
    while k < strs.len()
        invariant
            k <= strs@.len(),
            refs@.len() == k,
            forall|j: int| 0 <= j < k ==> (#[trigger] refs@[j])@ == strs@[j]@,
        decreases strs.len() - k,
    {
        refs.push(strs[k].as_str());
        k = k + 1;
    }
    assert(refs@.map_values(|l: &str| l@) =~= list_lines(output@));
    let (n, cells) = match parse_table(refs.as_slice()) {
        Ok(t) => t,
        Err(e) => return Err(ListError::Table(e)),
    };
    if n < 4 {
        return Err(ListError::InvalidHeader(first));
    }
    let ghost cv = cells@.map_values(|c: String| c@);
    let mut entries: Vec<WingetPackageEntry> = Vec::new();
    let mut p: usize = n;
    assert(cv.skip(n as int) == cv.skip(p as int));
    assert(entries@.map_values(|e: WingetPackageEntry| e@) + entries_of(cv.skip(p as int), n as int)
        == entries_of(cv.skip(n as int), n as int));
    while p < cells.len()
        invariant
            4 <= n <= p <= cells@.len(),
            cv == cells@.map_values(|c: String| c@),
            entries@.map_values(|e: WingetPackageEntry| e@) + entries_of(cv.skip(p as int), n as int)
                == entries_of(cv.skip(n as int), n as int),
        decreases cells.len() - p,
    {
        let ghost rows = cv.skip(p as int);
        let remaining = cells.len() - p;
        let size = if remaining < n {
            remaining
        } else {
            n
        };
        let ghost chunk = if rows.len() < n { rows } else { rows.take(n as int) };
        let ghost rest = if rows.len() < n { Seq::<Seq<char>>::empty() } else { rows.skip(n as int) };
        assert(chunk.len() == size);
        assert forall|j: int| 0 <= j < size implies #[trigger] chunk[j] == cells@[p + j]@ by {}
        let ghost e0 = entries@.map_values(|e: WingetPackageEntry| e@);
        if size >= 4 {
            let available = if n >= 5 && !cells[p + 3].as_str().is_empty() {
                Some(cells[p + 3].clone())
            } else {
                None
            };
            entries.push(
                WingetPackageEntry {
                    id: cells[p + 1].clone(),
                    version: cells[p + 2].clone(),
                    available,
                },
            );
            assert(entries@.map_values(|e: WingetPackageEntry| e@) =~= e0.push(entry_of(chunk, n as int)));
        }
        proof {
            if rows.len() < n {
                assert(rest =~= cv.skip(cells@.len() as int));
            } else {
                assert(rest =~= cv.skip(p + n));
            }
        }
        p = p + size;
    }
    assert(cv.skip(p as int) == Seq::<Seq<char>>::empty());
    assert(entries@.map_values(|e: WingetPackageEntry| e@) + Seq::<WingetEntryView>::empty()
        == entries@.map_values(|e: WingetPackageEntry| e@));
    Ok(entries)
}

/// The installed versions by id; a later row with the same id wins.
pub open spec fn installed_pairs(es: Seq<WingetEntryView>) -> Seq<(Seq<char>, Seq<char>)>
    decreases es.len(),
{
    if es.len() == 0 {
        seq![]
    } else {
        pairs_insert(installed_pairs(es.drop_last()), es.last().id, es.last().version)
    }
}

/// The offered upgrades by id, current and available version; only rows
/// that offer one count, and a later row with the same id wins.
pub open spec fn upgrade_pairs(es: Seq<WingetEntryView>) -> Seq<(Seq<char>, (Seq<char>, Seq<char>))>
    decreases es.len(),
{
    if es.len() == 0 {
        seq![]
    } else {
        let prev = upgrade_pairs(es.drop_last());
        let e = es.last();
        if entry_upgradable(e) {
            pairs_insert(prev, e.id, (e.version, e.available.unwrap()))
        } else {
            prev
        }
    }
}

/// The versions of an upgrade, by their characters.
pub open spec fn upgrade_view(u: UpgradeInfo) -> (Seq<char>, Seq<char>) {
    (u.current_version@, u.available_version@)
}

/// A row reads an available version only from a table of at least five
/// columns (Name, Id, Version, Available, Source), and only a non-empty one:
/// with fewer columns no row offers anything.
pub proof fn lemma_rows_available_column(rows: Seq<Seq<char>>, n: int)
    ensures
        forall|i: int|
            0 <= i < entries_of(rows, n).len() ==> match (#[trigger] entries_of(rows, n)[i]).available {
                Some(a) => n >= 5 && a.len() > 0,
                None => true,
            },
    decreases rows.len(),
{
    if n > 0 && rows.len() > 0 {
        let rest = if rows.len() < n {
            Seq::<Seq<char>>::empty()
        } else {
            rows.skip(n)
        };
        lemma_rows_available_column(rest, n);
    }
}

/// Without upgrades offered by any row, no upgrade is reported.
pub proof fn lemma_no_available_no_upgrades(es: Seq<WingetEntryView>)
    requires
        forall|i: int| 0 <= i < es.len() ==> (#[trigger] es[i]).available is None,
    ensures
        upgrade_pairs(es) == Seq::<(Seq<char>, (Seq<char>, Seq<char>))>::empty(),
    decreases es.len(),
{
    if es.len() > 0 {
        assert forall|i: int| 0 <= i < es.drop_last().len() implies (#[trigger] es.drop_last()[i]).available is None by {
            assert(es.drop_last()[i] == es[i]);
        }
        lemma_no_available_no_upgrades(es.drop_last());
        assert(es.last() == es[es.len() - 1]);
    }
}

/// How many columns the table `winget list` printed has (0 for no table).
pub open spec fn list_columns(output: Seq<char>) -> int {
    match table_of(list_lines(output)) {
        Some(t) => t.0,
        None => 0,
    }
}

/// When `winget list` prints a table of fewer than five columns (no
/// Available column), no row has an available version and nothing is
/// upgradable; whenever a row has one, the table has at least five columns.
pub proof fn lemma_winget_list_available(output: Seq<char>)
    ensures
        winget_list(output) matches Ok(es) ==> {
            &&& forall|i: int|
                0 <= i < es.len() && (#[trigger] es[i]).available is Some ==> list_columns(output) >= 5
            &&& list_columns(output) < 5 ==> upgrade_pairs(es)
                == Seq::<(Seq<char>, (Seq<char>, Seq<char>))>::empty()
        },
{
    if let Some(t) = table_of(list_lines(output)) {
        lemma_rows_available_column(t.1.skip(t.0), t.0);
        if output.len() > 0 && t.0 >= 4 && t.0 < 5 {
            let es = entries_of(t.1.skip(t.0), t.0);
            assert forall|i: int| 0 <= i < es.len() implies (#[trigger] es[i]).available is None by {}
            lemma_no_available_no_upgrades(es);
        }
    }
}

/// The installed versions the rows report, by id.
pub fn installed_from_entries(es: &Vec<WingetPackageEntry>) -> (m: StrMap<String>)
    ensures
        string_pairs(m@) == installed_pairs(es@.map_values(|e: WingetPackageEntry| e@)),
{
    let ghost ev = es@.map_values(|e: WingetPackageEntry| e@);
    let mut m: StrMap<String> = StrMap::new();
    let mut i: usize = 0;
    assert(ev.take(0) == Seq::<WingetEntryView>::empty());
    assert(string_pairs(m@) =~= Seq::<(Seq<char>, Seq<char>)>::empty());
    while i < es.len()
        invariant
            i <= es@.len(),
            ev == es@.map_values(|e: WingetPackageEntry| e@),
            string_pairs(m@) == installed_pairs(ev.take(i as int)),
        decreases es.len() - i,
    {
        assert(ev.take(i + 1).drop_last() == ev.take(i as int));
        assert(ev.take(i + 1).last() == es@[i as int]@);
        let v = es[i].version.clone();
        proof {
            lemma_map_vals(m@, |s: String| s@, es@[i as int].id@, v);
        }
        m.insert(es[i].id.clone(), v);
        i = i + 1;
    }
    assert(ev.take(es@.len() as int) == ev);
    m
}

/// The upgrades the rows offer, by id.
pub fn upgradable_from_entries(es: &Vec<WingetPackageEntry>) -> (m: StrMap<UpgradeInfo>)
    ensures
        map_vals(m@, |u: UpgradeInfo| upgrade_view(u)) == upgrade_pairs(
            es@.map_values(|e: WingetPackageEntry| e@),
        ),
{
    let ghost ev = es@.map_values(|e: WingetPackageEntry| e@);
    let ghost f = |u: UpgradeInfo| upgrade_view(u);
    let mut m: StrMap<UpgradeInfo> = StrMap::new();
    let mut i: usize = 0;
    assert(ev.take(0) == Seq::<WingetEntryView>::empty());
    assert(map_vals(m@, f) =~= Seq::<(Seq<char>, (Seq<char>, Seq<char>))>::empty());
    while i < es.len()
        invariant
            i <= es@.len(),
            ev == es@.map_values(|e: WingetPackageEntry| e@),
            f == (|u: UpgradeInfo| upgrade_view(u)),
            map_vals(m@, f) == upgrade_pairs(ev.take(i as int)),
        decreases es.len() - i,
    {
        assert(ev.take(i + 1).drop_last() == ev.take(i as int));
        assert(ev.take(i + 1).last() == es@[i as int]@);
        if es[i].is_upgradable() {
            let available = match &es[i].available {
                Some(a) => a.clone(),
                None => String::new(),
            };
            let info = UpgradeInfo::new(es[i].version.as_str(), available.as_str());
            proof {
                lemma_map_vals(m@, f, es@[i as int].id@, info);
            }
            m.insert(es[i].id.clone(), info);
        }
        i = i + 1;
    }
    assert(ev.take(es@.len() as int) == ev);
    m
}

/// Some word of what `winget search` printed equals the id up to ASCII case.
pub open spec fn search_found(output: Seq<char>, id: Seq<char>) -> bool {
    exists|k: int| 0 <= k < tokens_of(output).len() && eq_ignore_ascii_case(#[trigger] tokens_of(output)[k], id)
}

/// Whether what `winget search` printed names the package.
pub fn winget_search_found(output: &str, id: &str) -> (b: bool)
    ensures
        b == search_found(output@, id@),
{
    let v = chars_of(output);
    let idv = chars_of(id);
    let bounds = token_bounds(&v);
    let ghost ts = tokens_of(v@);
    let mut i: usize = 0;
    while i < bounds.len()
        invariant
            v@ == output@,
            idv@ == id@,
            ts == tokens_of(v@),
            forall|k: int| 0 <= k < bounds@.len() ==> #[trigger] bounds@[k].0 <= bounds@[k].1 <= v@.len(),
            bounds@.map_values(|b: (usize, usize)| v@.subrange(b.0 as int, b.1 as int)) == ts,
            i <= bounds@.len(),
            forall|k: int| 0 <= k < i ==> !eq_ignore_ascii_case(#[trigger] ts[k], id@),
        decreases bounds.len() - i,
    {
        let (lo, hi) = bounds[i];
        assert(ts[i as int] == v@.subrange(lo as int, hi as int));
        if range_eq_ignore_ascii_case(&v, lo, hi, &idv) {
            return true;
        }
        i = i + 1;
    }
    false
}

/// A manager is present when asking for its version printed anything.
pub fn reports_version(output: &str) -> (b: bool)
    ensures
        b == (output@.len() > 0),
{
    !output.is_empty()
}

} // verus!
