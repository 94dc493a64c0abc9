//! The tree ntix prints for a diff and the listing it prints for the state:
//! which lines, in which order, and how each piece of a line is styled.
//! Printing them, with colours, is left to the caller.
use vstd::prelude::*;

use crate::models::diff_result::{diff_has_work, DiffResult, DiffResultView};
use crate::models::import_node::ImportNode;
use crate::models::ntix_config::NTIXConfig;
use crate::models::state::State;
use crate::models::options::{buckets_view, ScoopBucket, ScoopBucketView};
use crate::models::package_spec::{specs_view, PackageSpec, PackageSpecView};
use crate::text::{chars_of, decimal_of, lowercase, str_equal, string_of, to_lowercase, usize_decimal};

verus! {

/// Whether `a` sorts before `b` the way Rust orders strings: by the first
/// character where they differ, a proper prefix first.
pub open spec fn lex_less(a: Seq<char>, b: Seq<char>) -> bool
    decreases a.len(),
{
    if a.len() == 0 {
        b.len() > 0
    } else if b.len() == 0 {
        false
    } else if a[0] != b[0] {
        (a[0] as u32) < (b[0] as u32)
    } else {
        lex_less(a.drop_first(), b.drop_first())
    }
}

pub proof fn lemma_lex_irreflexive(a: Seq<char>)
    ensures
        !lex_less(a, a),
    decreases a.len(),
{
    if a.len() > 0 {
        lemma_lex_irreflexive(a.drop_first());
    }
}

pub proof fn lemma_lex_transitive(a: Seq<char>, b: Seq<char>, c: Seq<char>)
    requires
        lex_less(a, b),
        lex_less(b, c),
    ensures
        lex_less(a, c),
    decreases a.len(),
{
    if a.len() > 0 && b.len() > 0 && c.len() > 0 {
        if a[0] == b[0] && b[0] == c[0] {
            lemma_lex_transitive(a.drop_first(), b.drop_first(), c.drop_first());
        }
    }
}

/// Of two different strings, one sorts before the other.
pub proof fn lemma_lex_total(a: Seq<char>, b: Seq<char>)
    ensures
        a == b || lex_less(a, b) || lex_less(b, a),
    decreases a.len(),
{
    if a.len() > 0 && b.len() > 0 && a[0] == b[0] {
        lemma_lex_total(a.drop_first(), b.drop_first());
        if a.drop_first() == b.drop_first() {
            assert(a.drop_first().len() == b.drop_first().len());
            assert(a.len() == b.len());
            assert(a =~= b) by {
                assert forall|i: int| 0 <= i < a.len() implies a[i] == b[i] by {
                    if i > 0 {
                        assert(a[i] == a.drop_first()[i - 1]);
                        assert(b[i] == b.drop_first()[i - 1]);
                    }
                }
            }
        }
    } else if a.len() == 0 && b.len() == 0 {
        assert(a =~= b);
    } else if a.len() > 0 && b.len() > 0 {
        vstd::utf8::char_u32_cast(a[0], a[0] as u32);
        vstd::utf8::char_u32_cast(b[0], b[0] as u32);
    }
}

/// Whether `a` sorts before `b` (Rust's order on strings).
pub fn str_less(a: &str, b: &str) -> (r: bool)
    ensures
        r == lex_less(a@, b@),
{
    let x = chars_of(a);
    let y = chars_of(b);
    let mut i: usize = 0;
    assert(a@.skip(0) == a@);
    assert(b@.skip(0) == b@);
    while i < x.len() && i < y.len() && x[i] == y[i]
        invariant
            x@ == a@,
            y@ == b@,
            i <= x@.len(),
            i <= y@.len(),
            lex_less(a@, b@) == lex_less(a@.skip(i as int), b@.skip(i as int)),
        decreases x.len() - i,
    {
        let ghost sa = a@.skip(i as int);
        let ghost sb = b@.skip(i as int);
        assert(sa.drop_first() == a@.skip(i + 1));
        assert(sb.drop_first() == b@.skip(i + 1));
        i = i + 1;
    }
    let ghost sa = a@.skip(i as int);
    let ghost sb = b@.skip(i as int);
    if i == x.len() {
        i < y.len()
    } else if i == y.len() {
        false
    } else {
        assert(sa[0] == x@[i as int] && sb[0] == y@[i as int]);
        let p: u32 = x[i] as u32;
        let q: u32 = y[i] as u32;
        p < q
    }
}


/// How a piece of a line is shown.
#[derive(Debug, Clone, Copy, PartialEq, Eq, Structural)]
pub enum Style {
    Plain,
    Bold,
    Dimmed,
    Green,
    Yellow,
    Cyan,
    Red,
    White,
    Magenta,
    Blue,
    /// Dark magenta (RGB 139, 0, 139).
    Purple,
}

/// A piece of a line and how it is shown.
#[derive(Debug)]
pub struct Segment {
    pub text: String,
    pub style: Style,
}

/// A line: its pieces with their styles.
pub open spec fn line_view(l: Seq<Segment>) -> Seq<(Seq<char>, Style)> {
    l.map_values(|g: Segment| (g.text@, g.style))
}

/// The views of a list of lines.
pub open spec fn lines_view(ls: Seq<Vec<Segment>>) -> Seq<Seq<(Seq<char>, Style)>> {
    ls.map_values(|l: Vec<Segment>| line_view(l@))
}

/// A line of one piece.
fn line1(a: String, sa: Style) -> (l: Vec<Segment>)
    ensures
        line_view(l@) == seq![(a@, sa)],
{
    let mut l: Vec<Segment> = Vec::new();
    l.push(Segment { text: a, style: sa });
    assert(line_view(l@) =~= seq![(l@[0].text@, sa)]);
    l
}

/// A line of two pieces.
fn line2(a: String, sa: Style, b: String, sb: Style) -> (l: Vec<Segment>)
    ensures
        line_view(l@) == seq![(a@, sa), (b@, sb)],
{
    let ghost (va, vb) = (a@, b@);
    let mut l: Vec<Segment> = Vec::new();
    l.push(Segment { text: a, style: sa });
    l.push(Segment { text: b, style: sb });
    assert(line_view(l@) =~= seq![(va, sa), (vb, sb)]);
    l
}

/// A line of three pieces.
fn line3(a: String, sa: Style, b: String, sb: Style, c: String, sc: Style) -> (l: Vec<Segment>)
    ensures
        line_view(l@) == seq![(a@, sa), (b@, sb), (c@, sc)],
{
    let ghost (va, vb, vc) = (a@, b@, c@);
    let mut l: Vec<Segment> = Vec::new();
    l.push(Segment { text: a, style: sa });
    l.push(Segment { text: b, style: sb });
    l.push(Segment { text: c, style: sc });
    assert(line_view(l@) =~= seq![(va, sa), (vb, sb), (vc, sc)]);
    l
}

fn push_line(lines: &mut Vec<Vec<Segment>>, l: Vec<Segment>)
    ensures
        lines_view(final(lines)@) == lines_view(old(lines)@).push(line_view(l@)),
{
    let ghost v = line_view(l@);
    lines.push(l);
    assert(lines_view(lines@) =~= lines_view(old(lines)@).push(v));
}

fn append_lines(lines: &mut Vec<Vec<Segment>>, more: Vec<Vec<Segment>>)
    ensures
        lines_view(final(lines)@) == lines_view(old(lines)@) + lines_view(more@),
{
    let ghost mv = lines_view(more@);
    let mut more = more;
    lines.append(&mut more);
    assert(lines_view(lines@) =~= lines_view(old(lines)@) + mv);
}

/// The branch drawn before an item of a tree: `└── ` for the last item,
/// `├── ` for the others.
pub open spec fn branch(prefix: Seq<char>, last: bool) -> Seq<char> {
    prefix + if last {
        "\u{2514}\u{2500}\u{2500} "@
    } else {
        "\u{251c}\u{2500}\u{2500} "@
    }
}

/// The indent drawn below an item of a tree: blank under the last item, a
/// vertical bar under the others.
pub open spec fn continuation(prefix: Seq<char>, last: bool) -> Seq<char> {
    prefix + if last {
        "    "@
    } else {
        "\u{2502}   "@
    }
}

/// The branch drawn before an item of a tree.
pub fn tree_branch(prefix: &str, is_last: bool) -> (s: String)
    ensures
        s@ == branch(prefix@, is_last),
{
    let mut s = prefix.to_owned();
    if is_last {
        s.append("\u{2514}\u{2500}\u{2500} ");
    } else {
        s.append("\u{251c}\u{2500}\u{2500} ");
    }
    s
}

/// The indent drawn below an item of a tree.
pub fn tree_continuation(prefix: &str, is_last: bool) -> (s: String)
    ensures
        s@ == continuation(prefix@, is_last),
{
    let mut s = prefix.to_owned();
    if is_last {
        s.append("    ");
    } else {
        s.append("\u{2502}   ");
    }
    s
}

/// How a package's version follows its id.
#[derive(Debug, Clone, Copy, PartialEq, Eq, Structural)]
pub enum VersionStyle {
    /// Not shown.
    Hidden,
    /// ` (1.2)`
    Paren,
    /// ` → 1.2`
    Arrow,
}

/// What follows a package's id: its version in the given style, nothing
/// when it has none.
pub open spec fn suffix(p: PackageSpecView, vs: VersionStyle) -> Seq<char> {
    match p.version {
        Some(v) => match vs {
            VersionStyle::Hidden => seq![],
            VersionStyle::Paren => " ("@ + v + ")"@,
            VersionStyle::Arrow => " \u{2192} "@ + v,
        },
        None => seq![],
    }
}

/// What follows a package's id.
pub fn version_suffix(pkg: &PackageSpec, style: VersionStyle) -> (s: String)
    ensures
        s@ == suffix(pkg@, style),
{
    match &pkg.version {
        Some(v) => match style {
            VersionStyle::Hidden => {
                let s = String::new();
                assert(s@ =~= Seq::<char>::empty());
                s
            },
            VersionStyle::Paren => {
                let mut s = " (".to_owned();
                s.append(v.as_str());
                s.append(")");
                s
            },
            VersionStyle::Arrow => {
                let mut s = " \u{2192} ".to_owned();
                s.append(v.as_str());
                s
            },
        },
        None => {
            let s = String::new();
            assert(s@ =~= Seq::<char>::empty());
            s
        },
    }
}

/// The colour of a manager's name and packages, by its lowercased name.
pub open spec fn source_style(source: Seq<char>) -> Style {
    let l = lowercase(source);
    if l == "winget"@ {
        Style::Purple
    } else if l == "chocolatey"@ {
        Style::Blue
    } else if l == "scoop"@ {
        Style::Magenta
    } else {
        Style::Plain
    }
}

/// The colour of a manager's name and packages.
pub fn source_color(source: &str) -> (s: Style)
    ensures
        s == source_style(source@),
{
    let l = to_lowercase(source);
    if str_equal(l.as_str(), "winget") {
        Style::Purple
    } else if str_equal(l.as_str(), "chocolatey") {
        Style::Blue
    } else if str_equal(l.as_str(), "scoop") {
        Style::Magenta
    } else {
        Style::Plain
    }
}

/// How many leading strings of `s` sort before `x`.
pub open spec fn lower_bound(s: Seq<Seq<char>>, x: Seq<char>) -> nat
    decreases s.len(),
{
    if s.len() == 0 {
        0
    } else if lex_less(s[0], x) {
        1 + lower_bound(s.drop_first(), x)
    } else {
        0
    }
}

/// `x` added to a sorted list of distinct strings, unless it is there.
pub open spec fn insert_distinct(s: Seq<Seq<char>>, x: Seq<char>) -> Seq<Seq<char>> {
    let j = lower_bound(s, x) as int;
    if j < s.len() && s[j] == x {
        s
    } else {
        s.insert(j, x)
    }
}

/// The managers of a list of packages, each once, in Rust's string order.
pub open spec fn sorted_sources(ps: Seq<PackageSpecView>) -> Seq<Seq<char>>
    decreases ps.len(),
{
    if ps.len() == 0 {
        seq![]
    } else {
        insert_distinct(sorted_sources(ps.drop_last()), ps.last().source)
    }
}

/// Whether the strings are in strictly increasing order.
pub open spec fn strictly_sorted(s: Seq<Seq<char>>) -> bool {
    forall|i: int, j: int| 0 <= i < j < s.len() ==> lex_less(#[trigger] s[i], #[trigger] s[j])
}

proof fn lemma_lower_bound(s: Seq<Seq<char>>, x: Seq<char>)
    ensures
        lower_bound(s, x) <= s.len(),
        forall|i: int| 0 <= i < lower_bound(s, x) ==> lex_less(#[trigger] s[i], x),
        lower_bound(s, x) < s.len() ==> !lex_less(s[lower_bound(s, x) as int], x),
    decreases s.len(),
{
    if s.len() > 0 && lex_less(s[0], x) {
        lemma_lower_bound(s.drop_first(), x);
        assert forall|i: int| 0 <= i < lower_bound(s, x) implies lex_less(#[trigger] s[i], x) by {
            if i > 0 {
                assert(s[i] == s.drop_first()[i - 1]);
            }
        }
        if lower_bound(s, x) < s.len() {
            assert(s[lower_bound(s, x) as int] == s.drop_first()[lower_bound(s.drop_first(), x) as int]);
        }
    }
}

/// Adding a string keeps a strictly sorted list strictly sorted and adds
/// exactly that string.
proof fn lemma_insert_distinct(s: Seq<Seq<char>>, x: Seq<char>)
    requires
        strictly_sorted(s),
    ensures
        strictly_sorted(insert_distinct(s, x)),
        forall|y: Seq<char>| insert_distinct(s, x).contains(y) <==> (s.contains(y) || y == x),
{
    lemma_lower_bound(s, x);
    let j = lower_bound(s, x) as int;
    let r = insert_distinct(s, x);
    if j < s.len() && s[j] == x {
        assert forall|y: Seq<char>| r.contains(y) <==> (s.contains(y) || y == x) by {
            if y == x {
                assert(s[j] == y);
            }
        }
    } else {
        if j < s.len() {
            lemma_lex_total(s[j], x);
        }
        assert forall|a: int, b: int| 0 <= a < b < r.len() implies lex_less(#[trigger] r[a], #[trigger] r[b]) by {
            if b < j {
                assert(r[a] == s[a] && r[b] == s[b]);
            } else if b == j {
                assert(r[a] == s[a] && r[b] == x);
            } else if a < j {
                assert(r[a] == s[a] && r[b] == s[b - 1]);
                assert(lex_less(x, s[j]));
                if b - 1 > j {
                    lemma_lex_transitive(x, s[j], s[b - 1]);
                }
                lemma_lex_transitive(s[a], x, s[b - 1]);
            } else if a == j {
                assert(r[a] == x && r[b] == s[b - 1]);
                if b - 1 > j {
                    lemma_lex_transitive(x, s[j], s[b - 1]);
                }
            } else {
                assert(r[a] == s[a - 1] && r[b] == s[b - 1]);
            }
        }
        assert forall|y: Seq<char>| r.contains(y) <==> (s.contains(y) || y == x) by {
            if s.contains(y) {
                let k = choose|k: int| 0 <= k < s.len() && s[k] == y;
                if k < j {
                    assert(r[k] == y);
                } else {
                    assert(r[k + 1] == y);
                }
            }
            if y == x {
                assert(r[j] == x);
            }
            if r.contains(y) {
                let k = choose|k: int| 0 <= k < r.len() && r[k] == y;
                if k < j {
                    assert(s[k] == y);
                } else if k > j {
                    assert(s[k - 1] == y);
                }
            }
        }
    }
}

/// The managers of a list of packages are each listed once, in order.
pub proof fn lemma_sorted_sources(ps: Seq<PackageSpecView>)
    ensures
        strictly_sorted(sorted_sources(ps)),
        forall|y: Seq<char>| sorted_sources(ps).contains(y) <==> exists|k: int| 0 <= k < ps.len() && #[trigger] ps[k].source == y,
    decreases ps.len(),
{
    if ps.len() > 0 {
        let q = ps.drop_last();
        lemma_sorted_sources(q);
        lemma_insert_distinct(sorted_sources(q), ps.last().source);
        assert forall|y: Seq<char>| sorted_sources(ps).contains(y) <==> exists|k: int| 0 <= k < ps.len() && #[trigger] ps[k].source == y by {
            if exists|k: int| 0 <= k < ps.len() && #[trigger] ps[k].source == y {
                let k = choose|k: int| 0 <= k < ps.len() && #[trigger] ps[k].source == y;
                if k < ps.len() - 1 {
                    assert(q[k].source == y);
                }
            }
            if sorted_sources(q).contains(y) {
                let k = choose|k: int| 0 <= k < q.len() && #[trigger] q[k].source == y;
                assert(ps[k].source == y);
            }
        }
    }
}

/// The managers of a list of packages, each once, in Rust's string order.
pub fn source_order(packages: &Vec<PackageSpec>) -> (r: Vec<String>)
    ensures
        r@.map_values(|s: String| s@) == sorted_sources(specs_view(packages@)),
{
    let mut out: Vec<String> = Vec::new();
    let mut i: usize = 0;
    assert(specs_view(packages@).take(0) =~= Seq::<PackageSpecView>::empty());
    assert(out@.map_values(|s: String| s@) =~= Seq::<Seq<char>>::empty());
    while i < packages.len()
        invariant
            i <= packages@.len(),
            out@.map_values(|s: String| s@) == sorted_sources(specs_view(packages@).take(i as int)),
        decreases packages.len() - i,
    {
        let ghost ov = out@.map_values(|s: String| s@);
        let ghost ps = specs_view(packages@).take(i + 1);
        assert(ps.drop_last() == specs_view(packages@).take(i as int));
        assert(ps.last() == packages@[i as int]@);
        let x = &packages[i].source;
        let mut j: usize = 0;
        assert(ov.skip(0) == ov);
        while j < out.len() && str_less(out[j].as_str(), x.as_str())
            invariant
                ov == out@.map_values(|s: String| s@),
                j <= out@.len(),
                lower_bound(ov, x@) == j + lower_bound(ov.skip(j as int), x@),
            decreases out.len() - j,
        {
            assert(ov.skip(j as int).drop_first() == ov.skip(j + 1));
            assert(ov.skip(j as int)[0] == ov[j as int]);
            j = j + 1;
        }
        if j < out.len() {
            assert(ov.skip(j as int)[0] == ov[j as int]);
        }
        let present = j < out.len() && str_equal(out[j].as_str(), x.as_str());
        if !present {
            out.insert(j, x.clone());
            assert(out@.map_values(|s: String| s@) =~= ov.insert(j as int, x@));
        }
        i = i + 1;
    }
    assert(specs_view(packages@).take(packages@.len() as int) == specs_view(packages@));
    out
}


/// The packages of one manager, in their order.
pub open spec fn of_source(ps: Seq<PackageSpecView>, src: Seq<char>) -> Seq<PackageSpecView>
    decreases ps.len(),
{
    if ps.len() == 0 {
        seq![]
    } else if ps.last().source == src {
        of_source(ps.drop_last(), src).push(ps.last())
    } else {
        of_source(ps.drop_last(), src)
    }
}

/// How many leading packages of `s` do not sort after `x` by id.
pub open spec fn id_upper_bound(s: Seq<PackageSpecView>, x: PackageSpecView) -> nat
    decreases s.len(),
{
    if s.len() == 0 {
        0
    } else if !lex_less(x.id, s[0].id) {
        1 + id_upper_bound(s.drop_first(), x)
    } else {
        0
    }
}

/// The packages sorted by id, keeping the order of packages with equal ids
/// (a stable sort).
pub open spec fn sort_by_id(s: Seq<PackageSpecView>) -> Seq<PackageSpecView>
    decreases s.len(),
{
    if s.len() == 0 {
        seq![]
    } else {
        let r = sort_by_id(s.drop_last());
        r.insert(id_upper_bound(r, s.last()) as int, s.last())
    }
}

proof fn lemma_id_upper_bound(s: Seq<PackageSpecView>, x: PackageSpecView)
    ensures
        id_upper_bound(s, x) <= s.len(),
        forall|i: int| 0 <= i < id_upper_bound(s, x) ==> !lex_less(x.id, #[trigger] s[i].id),
        id_upper_bound(s, x) < s.len() ==> lex_less(x.id, s[id_upper_bound(s, x) as int].id),
    decreases s.len(),
{
    if s.len() > 0 && !lex_less(x.id, s[0].id) {
        lemma_id_upper_bound(s.drop_first(), x);
        assert forall|i: int| 0 <= i < id_upper_bound(s, x) implies !lex_less(x.id, #[trigger] s[i].id) by {
            if i > 0 {
                assert(s[i] == s.drop_first()[i - 1]);
            }
        }
        if id_upper_bound(s, x) < s.len() {
            assert(s[id_upper_bound(s, x) as int] == s.drop_first()[id_upper_bound(s.drop_first(), x) as int]);
        }
    }
}

/// The result of `sort_by_id` is ordered by id.
pub proof fn lemma_sort_by_id(s: Seq<PackageSpecView>)
    ensures
        sort_by_id(s).len() == s.len(),
        forall|i: int, j: int| 0 <= i < j < s.len() ==> !lex_less(#[trigger] sort_by_id(s)[j].id, #[trigger] sort_by_id(s)[i].id),
    decreases s.len(),
{
    if s.len() > 0 {
        let r = sort_by_id(s.drop_last());
        let x = s.last();
        lemma_sort_by_id(s.drop_last());
        lemma_id_upper_bound(r, x);
        let u = id_upper_bound(r, x) as int;
        let t = sort_by_id(s);
        assert(t == r.insert(u, x));
        assert forall|i: int, j: int| 0 <= i < j < s.len() implies !lex_less(#[trigger] t[j].id, #[trigger] t[i].id) by {
            if j < u {
                assert(t[i] == r[i] && t[j] == r[j]);
            } else if j == u {
                assert(t[i] == r[i] && t[j] == x);
                if lex_less(x.id, r[i].id) {
                    assert(false);
                }
            } else if i < u {
                assert(t[i] == r[i] && t[j] == r[j - 1]);
                if lex_less(r[j - 1].id, r[i].id) {
                    lemma_lex_transitive(x.id, r[u].id, r[j - 1].id);
                    if j - 1 > u {
                        assert(!lex_less(r[j - 1].id, r[u].id));
                    }
                    lemma_lex_total(r[u].id, r[j - 1].id);
                    lemma_lex_transitive(r[j - 1].id, r[i].id, x.id);
                    assert(false);
                }
            } else if i == u {
                assert(t[i] == x && t[j] == r[j - 1]);
                if lex_less(r[j - 1].id, x.id) {
                    if j - 1 > u {
                        assert(!lex_less(r[j - 1].id, r[u].id));
                        lemma_lex_transitive(r[j - 1].id, x.id, r[u].id);
                    } else {
                        lemma_lex_irreflexive(x.id);
                        lemma_lex_transitive(r[u].id, x.id, r[u].id);
                        lemma_lex_irreflexive(r[u].id);
                    }
                }
            } else {
                assert(t[i] == r[i - 1] && t[j] == r[j - 1]);
            }
        }
    }
}

/// `sort_by_id` holds the same packages it was given, as many times each.
pub proof fn lemma_sort_by_id_permutes(s: Seq<PackageSpecView>)
    ensures
        sort_by_id(s).to_multiset() == s.to_multiset(),
    decreases s.len(),
{
    if s.len() == 0 {
        assert(s =~= Seq::<PackageSpecView>::empty());
    } else {
        let r = sort_by_id(s.drop_last());
        let x = s.last();
        lemma_sort_by_id_permutes(s.drop_last());
        lemma_id_upper_bound(r, x);
        let u = id_upper_bound(r, x) as int;
        vstd::seq_lib::to_multiset_insert(r, u, x);
        vstd::seq_lib::to_multiset_build(s.drop_last(), x);
        assert(s.drop_last().push(x) == s);
    }
}

/// One package of a group: its id and version, in its manager's colour.
pub open spec fn package_line(p: PackageSpecView, prefix: Seq<char>, last: bool, src: Seq<char>, vs: VersionStyle) -> Seq<
    (Seq<char>, Style),
> {
    seq![(branch(prefix, last), Style::Plain), (p.id + suffix(p, vs), source_style(src))]
}

/// The lines for one manager's packages: a single package on the manager's
/// line, else the manager with a count and one line per package, by id.
pub open spec fn group_lines(
    ps: Seq<PackageSpecView>,
    src: Seq<char>,
    last: bool,
    vs: VersionStyle,
    prefix: Seq<char>,
) -> Seq<Seq<(Seq<char>, Style)>> {
    let g = sort_by_id(of_source(ps, src));
    if g.len() == 1 {
        seq![seq![(branch(prefix, last), Style::Plain), (src + ": "@ + g[0].id + suffix(g[0], vs), source_style(src))]]
    } else {
        seq![seq![(branch(prefix, last), Style::Plain), (src + " ("@ + decimal_of(g.len() as int) + ")"@, source_style(src))]]
            + Seq::new(g.len(), |j: int| package_line(g[j], continuation(prefix, last), j + 1 == g.len(), src, vs))
    }
}

/// The lines for the first `n` managers of `srcs`.
pub open spec fn groups_upto(
    ps: Seq<PackageSpecView>,
    srcs: Seq<Seq<char>>,
    vs: VersionStyle,
    prefix: Seq<char>,
    n: nat,
) -> Seq<Seq<(Seq<char>, Style)>>
    decreases n,
{
    if n == 0 {
        seq![]
    } else {
        groups_upto(ps, srcs, vs, prefix, (n - 1) as nat) + group_lines(ps, srcs[n - 1], n == srcs.len(), vs, prefix)
    }
}

/// The lines listing packages grouped by manager, managers in order.
pub open spec fn grouped_lines(ps: Seq<PackageSpecView>, vs: VersionStyle, prefix: Seq<char>) -> Seq<Seq<(Seq<char>, Style)>> {
    groups_upto(ps, sorted_sources(ps), vs, prefix, sorted_sources(ps).len())
}

/// The packages of one manager, sorted by id (stably).
fn sorted_group(packages: &Vec<PackageSpec>, source: &str) -> (r: Vec<PackageSpec>)
    ensures
        specs_view(r@) == sort_by_id(of_source(specs_view(packages@), source@)),
{
    let mut out: Vec<PackageSpec> = Vec::new();
    let mut i: usize = 0;
    assert(specs_view(packages@).take(0) =~= Seq::<PackageSpecView>::empty());
    assert(specs_view(out@) =~= Seq::<PackageSpecView>::empty());
    while i < packages.len()
        invariant
            i <= packages@.len(),
            specs_view(out@) == sort_by_id(of_source(specs_view(packages@).take(i as int), source@)),
        decreases packages.len() - i,
    {
        let ghost ps = specs_view(packages@).take(i + 1);
        assert(ps.drop_last() == specs_view(packages@).take(i as int));
        assert(ps.last() == packages@[i as int]@);
        if str_equal(packages[i].source.as_str(), source) {
            let ghost ov = specs_view(out@);
            let ghost x = packages@[i as int]@;
            assert(of_source(ps, source@).drop_last() == of_source(specs_view(packages@).take(i as int), source@));
            let mut j: usize = 0;
            assert(ov.skip(0) == ov);
            while j < out.len() && !str_less(packages[i].id.as_str(), out[j].id.as_str())
                invariant
                    ov == specs_view(out@),
                    x == packages@[i as int]@,
                    i < packages@.len(),
                    j <= out@.len(),
                    id_upper_bound(ov, x) == j + id_upper_bound(ov.skip(j as int), x),
                decreases out.len() - j,
            {
                assert(ov.skip(j as int).drop_first() == ov.skip(j + 1));
                assert(ov.skip(j as int)[0] == ov[j as int]);
                j = j + 1;
            }
            if j < out.len() {
                assert(ov.skip(j as int)[0] == ov[j as int]);
            }
            out.insert(j, packages[i].copy());
            assert(specs_view(out@) =~= ov.insert(j as int, x));
        }
        i = i + 1;
    }
    assert(specs_view(packages@).take(packages@.len() as int) == specs_view(packages@));
    out
}

/// The lines for one manager's packages.
fn group_report(packages: &Vec<PackageSpec>, source: &String, is_last: bool, style: VersionStyle, prefix: &str) -> (r: Vec<
    Vec<Segment>,
>)
    ensures
        lines_view(r@) == group_lines(specs_view(packages@), source@, is_last, style, prefix@),
{
    let group = sorted_group(packages, source.as_str());
    let ghost g = specs_view(group@);
    let color = source_color(source.as_str());
    let mut lines: Vec<Vec<Segment>> = Vec::new();
    if group.len() == 1 {
        let mut text = source.clone();
        text.append(": ");
        text.append(group[0].id.as_str());
        let sfx = version_suffix(&group[0], style);
        text.append(sfx.as_str());
        assert(g[0] == group@[0]@);
        push_line(&mut lines, line2(tree_branch(prefix, is_last), Style::Plain, text, color));
        assert(lines_view(lines@) =~= group_lines(specs_view(packages@), source@, is_last, style, prefix@));
    } else {
        let mut text = source.clone();
        text.append(" (");
        let count = usize_decimal(group.len());
        text.append(count.as_str());
        text.append(")");
        push_line(&mut lines, line2(tree_branch(prefix, is_last), Style::Plain, text, color));
        let child_prefix = tree_continuation(prefix, is_last);
        let ghost head = lines_view(lines@);
        let ghost all = Seq::new(
            g.len(),
            |j: int| package_line(g[j], continuation(prefix@, is_last), j + 1 == g.len(), source@, style),
        );
        let mut j: usize = 0;
        assert(all.take(0) =~= Seq::<Seq<(Seq<char>, Style)>>::empty());
        while j < group.len()
            invariant
                g == specs_view(group@),
                child_prefix@ == continuation(prefix@, is_last),
                color == source_style(source@),
                all == Seq::new(
                    g.len(),
                    |j: int| package_line(g[j], continuation(prefix@, is_last), j + 1 == g.len(), source@, style),
                ),
                j <= group@.len(),
                lines_view(lines@) == head + all.take(j as int),
            decreases group.len() - j,
        {
            let mut text = group[j].id.clone();
            let sfx = version_suffix(&group[j], style);
            text.append(sfx.as_str());
            assert(g[j as int] == group@[j as int]@);
            push_line(
                &mut lines,
                line2(tree_branch(child_prefix.as_str(), j + 1 == group.len()), Style::Plain, text, color),
            );
            assert(all.take(j + 1) =~= all.take(j as int).push(all[j as int]));
            j = j + 1;
        }
        assert(all.take(g.len() as int) == all);
    }
    lines
}

/// The lines listing packages grouped by manager: managers in order, each
/// with its packages by id.
pub fn print_grouped(packages: &Vec<PackageSpec>, style: VersionStyle, prefix: &str) -> (r: Vec<Vec<Segment>>)
    ensures
        lines_view(r@) == grouped_lines(specs_view(packages@), style, prefix@),
{
    let sources = source_order(packages);
    let ghost srcs = sources@.map_values(|s: String| s@);
    let mut lines: Vec<Vec<Segment>> = Vec::new();
    let mut i: usize = 0;
    assert(lines_view(lines@) =~= Seq::<Seq<(Seq<char>, Style)>>::empty());
    while i < sources.len()
        invariant
            srcs == sources@.map_values(|s: String| s@),
            srcs == sorted_sources(specs_view(packages@)),
            i <= sources@.len(),
            lines_view(lines@) == groups_upto(specs_view(packages@), srcs, style, prefix@, i as nat),
        decreases sources.len() - i,
    {
        let more = group_report(packages, &sources[i], i + 1 == sources.len(), style, prefix);
        assert(srcs[i as int] == sources@[i as int]@);
        append_lines(&mut lines, more);
        i = i + 1;
    }
    lines
}


/// How many leading buckets of `s` do not sort after `x` by name.
pub open spec fn name_upper_bound(s: Seq<ScoopBucketView>, x: ScoopBucketView) -> nat
    decreases s.len(),
{
    if s.len() == 0 {
        0
    } else if !lex_less(x.name, s[0].name) {
        1 + name_upper_bound(s.drop_first(), x)
    } else {
        0
    }
}

/// The buckets sorted by name, stably.
pub open spec fn sort_by_name(s: Seq<ScoopBucketView>) -> Seq<ScoopBucketView>
    decreases s.len(),
{
    if s.len() == 0 {
        seq![]
    } else {
        let r = sort_by_name(s.drop_last());
        r.insert(name_upper_bound(r, s.last()) as int, s.last())
    }
}

/// The lines listing buckets by name under a section.
pub open spec fn bucket_lines(bs: Seq<ScoopBucketView>, last: bool) -> Seq<Seq<(Seq<char>, Style)>> {
    let g = sort_by_name(bs);
    Seq::new(
        g.len(),
        |j: int| seq![(branch(continuation(""@, last), j + 1 == g.len()), Style::Plain), (g[j].name, Style::Magenta)],
    )
}

fn sorted_buckets(buckets: &Vec<ScoopBucket>) -> (r: Vec<ScoopBucket>)
    ensures
        buckets_view(r@) == sort_by_name(buckets_view(buckets@)),
{
    let mut out: Vec<ScoopBucket> = Vec::new();
    let mut i: usize = 0;
    assert(buckets_view(buckets@).take(0) =~= Seq::<ScoopBucketView>::empty());
    assert(buckets_view(out@) =~= Seq::<ScoopBucketView>::empty());
    while i < buckets.len()
        invariant
            i <= buckets@.len(),
            buckets_view(out@) == sort_by_name(buckets_view(buckets@).take(i as int)),
        decreases buckets.len() - i,
    {
        let ghost bs = buckets_view(buckets@).take(i + 1);
        assert(bs.drop_last() == buckets_view(buckets@).take(i as int));
        assert(bs.last() == buckets@[i as int]@);
        let ghost ov = buckets_view(out@);
        let ghost x = buckets@[i as int]@;
        let mut j: usize = 0;
        assert(ov.skip(0) == ov);
        while j < out.len() && !str_less(buckets[i].name.as_str(), out[j].name.as_str())
            invariant
                ov == buckets_view(out@),
                x == buckets@[i as int]@,
                i < buckets@.len(),
                j <= out@.len(),
                name_upper_bound(ov, x) == j + name_upper_bound(ov.skip(j as int), x),
            decreases out.len() - j,
        {
            assert(ov.skip(j as int).drop_first() == ov.skip(j + 1));
            assert(ov.skip(j as int)[0] == ov[j as int]);
            j = j + 1;
        }
        if j < out.len() {
            assert(ov.skip(j as int)[0] == ov[j as int]);
        }
        out.insert(j, buckets[i].copy());
        assert(buckets_view(out@) =~= ov.insert(j as int, x));
        i = i + 1;
    }
    assert(buckets_view(buckets@).take(buckets@.len() as int) == buckets_view(buckets@));
    out
}

/// The lines listing buckets by name under a section.
pub fn print_buckets(buckets: &Vec<ScoopBucket>, is_last: bool) -> (r: Vec<Vec<Segment>>)
    ensures
        lines_view(r@) == bucket_lines(buckets_view(buckets@), is_last),
{
    let sorted = sorted_buckets(buckets);
    let ghost g = buckets_view(sorted@);
    let ghost all = Seq::new(
        g.len(),
        |j: int| seq![(branch(continuation(""@, is_last), j + 1 == g.len()), Style::Plain), (g[j].name, Style::Magenta)],
    );
    let prefix = tree_continuation("", is_last);
    let mut lines: Vec<Vec<Segment>> = Vec::new();
    let mut j: usize = 0;
    assert(lines_view(lines@) =~= all.take(0));
    while j < sorted.len()
        invariant
            g == buckets_view(sorted@),
            prefix@ == continuation(""@, is_last),
            all == Seq::new(
                g.len(),
                |j: int| seq![(branch(continuation(""@, is_last), j + 1 == g.len()), Style::Plain), (g[j].name, Style::Magenta)],
            ),
            j <= sorted@.len(),
            lines_view(lines@) == all.take(j as int),
        decreases sorted.len() - j,
    {
        assert(g[j as int] == sorted@[j as int]@);
        push_line(
            &mut lines,
            line2(tree_branch(prefix.as_str(), j + 1 == sorted.len()), Style::Plain, sorted[j].name.clone(), Style::Magenta),
        );
        assert(all.take(j + 1) =~= all.take(j as int).push(all[j as int]));
        j = j + 1;
    }
    assert(all.take(g.len() as int) == all);
    lines
}

/// The lines for one imported file: its path, dimmed, then the files it
/// imports, indented under it.
pub open spec fn node_lines(node: ImportNode, prefix: Seq<char>, last: bool) -> Seq<Seq<(Seq<char>, Style)>>
    decreases node, 0nat,
{
    seq![seq![(branch(prefix, last), Style::Plain), (node.path@, Style::Dimmed)]] + nodes_upto(
        node.children@,
        continuation(prefix, last),
        node.children@.len(),
    )
}

/// The lines for the first `n` of a list of imported files.
pub open spec fn nodes_upto(nodes: Seq<ImportNode>, prefix: Seq<char>, n: nat) -> Seq<Seq<(Seq<char>, Style)>>
    decreases nodes, n,
{
    if n == 0 || n > nodes.len() {
        seq![]
    } else {
        nodes_upto(nodes, prefix, (n - 1) as nat) + node_lines(nodes[n - 1], prefix, n == nodes.len())
    }
}

/// The lines for a list of imported files and what they import.
pub open spec fn import_lines(nodes: Seq<ImportNode>, prefix: Seq<char>) -> Seq<Seq<(Seq<char>, Style)>> {
    nodes_upto(nodes, prefix, nodes.len())
}

/// The lines for a list of imported files and, below each, what it imports.
pub fn print_import_children(imports: &Vec<ImportNode>, prefix: &str) -> (r: Vec<Vec<Segment>>)
    ensures
        lines_view(r@) == import_lines(imports@, prefix@),
    decreases imports@,
{
    let mut lines: Vec<Vec<Segment>> = Vec::new();
    let mut i: usize = 0;
    assert(lines_view(lines@) =~= Seq::<Seq<(Seq<char>, Style)>>::empty());
    while i < imports.len()
        invariant
            i <= imports@.len(),
            lines_view(lines@) == nodes_upto(imports@, prefix@, i as nat),
        decreases imports.len() - i,
    {
        let last = i + 1 == imports.len();
        let ghost before = lines_view(lines@);
        let head = line2(tree_branch(prefix, last), Style::Plain, imports[i].path.clone(), Style::Dimmed);
        let ghost hv = line_view(head@);
        push_line(&mut lines, head);
        let child_prefix = tree_continuation(prefix, last);
        proof {
            assert(decreases_to!(imports@ => imports@[i as int]));
            assert(decreases_to!(imports@[i as int] => imports@[i as int].children));
            assert(decreases_to!(imports@[i as int].children => imports@[i as int].children@));
        }
        let more = print_import_children(&imports[i].children, child_prefix.as_str());
        let ghost mv = lines_view(more@);
        append_lines(&mut lines, more);
        assert(node_lines(imports@[i as int], prefix@, last) == seq![hv] + mv);
        assert(nodes_upto(imports@, prefix@, (i + 1) as nat) == before + node_lines(imports@[i as int], prefix@, last));
        assert(lines_view(lines@) =~= nodes_upto(imports@, prefix@, (i + 1) as nat));
        i = i + 1;
    }
    lines
}


/// The sections of the diff tree, in the order they are shown.
#[derive(Debug, Clone, Copy, PartialEq, Eq, Structural)]
pub enum Section {
    Imports,
    ToInstall,
    ToUpgrade,
    ToAdopt,
    ToSkip,
    BucketsToAdd,
    BucketsToRemove,
    ToRemove,
    ConfigFiles,
}

/// The heading line of a section.
pub open spec fn heading(last: bool, text: Seq<char>, st: Style) -> Seq<(Seq<char>, Style)> {
    seq![(branch(""@, last), Style::Plain), (text, st)]
}

/// A label followed by a count in parentheses.
pub open spec fn counted(label: Seq<char>, n: nat) -> Seq<char> {
    label + " ("@ + decimal_of(n as int) + ")"@
}

/// The line for a config file that is created or updated.
pub open spec fn config_file_line(prefix: Seq<char>, tag: Seq<char>, st: Style, dest: Seq<char>) -> Seq<(Seq<char>, Style)> {
    seq![(prefix + "["@, Style::Plain), (tag, st), ("] "@ + dest, Style::Plain)]
}

/// The number of config files a diff lists.
pub open spec fn config_file_total(d: DiffResultView) -> nat {
    d.config_files_to_create.len() + d.config_files_to_update.len() + d.config_files_no_longer_managed.len()
}

/// The lines of one section of the diff tree.
pub open spec fn section_lines(imports: Seq<ImportNode>, d: DiffResultView, sec: Section, last: bool) -> Seq<
    Seq<(Seq<char>, Style)>,
> {
    let cont = continuation(""@, last);
    match sec {
        Section::Imports => seq![heading(last, "imports"@, Style::Dimmed)] + import_lines(imports, cont),
        Section::ToInstall => seq![heading(last, counted("\u{2191} To install"@, d.to_install.len()), Style::Green)]
            + grouped_lines(d.to_install, VersionStyle::Paren, cont),
        Section::ToUpgrade => seq![heading(last, counted("\u{2191} To upgrade"@, d.to_upgrade.len()), Style::Yellow)]
            + grouped_lines(d.to_upgrade, VersionStyle::Arrow, cont),
        Section::ToAdopt => seq![heading(last, counted("\u{271a} To adopt"@, d.to_adopt.len()), Style::Cyan)]
            + grouped_lines(d.to_adopt, VersionStyle::Paren, cont),
        Section::ToSkip => seq![heading(last, counted("\u{2713} Already managed"@, d.to_skip.len()), Style::Dimmed)],
        Section::BucketsToAdd => seq![
            heading(last, counted("\u{2191} Buckets to add"@, d.buckets_to_add.len()), Style::Green),
        ] + bucket_lines(d.buckets_to_add, last),
        Section::BucketsToRemove => seq![
            heading(last, counted("\u{2193} Buckets to remove"@, d.buckets_to_remove.len()), Style::Red),
        ] + bucket_lines(d.buckets_to_remove, last),
        Section::ToRemove => seq![heading(last, counted("\u{2717} Orphans"@, d.to_remove.len()), Style::Red)]
            + grouped_lines(d.to_remove, VersionStyle::Hidden, cont),
        Section::ConfigFiles => seq![heading(last, counted("\u{2691} Config files"@, config_file_total(d)), Style::White)]
            + Seq::new(
            d.config_files_to_create.len(),
            |i: int| config_file_line(cont, "new"@, Style::Green, d.config_files_to_create[i].dest),
        ) + Seq::new(
            d.config_files_to_update.len(),
            |i: int| config_file_line(cont, "update"@, Style::Yellow, d.config_files_to_update[i].dest),
        ) + Seq::new(
            d.config_files_no_longer_managed.len(),
            |i: int| seq![(cont, Style::Plain), ("[orphan]"@, Style::Red), (" "@ + d.config_files_no_longer_managed[i], Style::Plain)],
        ),
    }
}

fn heading_line(is_last: bool, label: &str, n: usize, st: Style) -> (l: Vec<Segment>)
    ensures
        line_view(l@) == heading(is_last, counted(label@, n as nat), st),
{
    let mut text = label.to_owned();
    text.append(" (");
    let count = usize_decimal(n);
    text.append(count.as_str());
    text.append(")");
    line2(tree_branch("", is_last), Style::Plain, text, st)
}

fn file_lines(entries: &Vec<crate::models::config_file::ConfigFileEntry>, prefix: &str, tag: &str, st: Style) -> (r: Vec<Vec<Segment>>)
    ensures
        lines_view(r@) == Seq::new(
            entries@.len(),
            |i: int| config_file_line(prefix@, tag@, st, entries@[i].dest@),
        ),
{
    let ghost all = Seq::new(entries@.len(), |i: int| config_file_line(prefix@, tag@, st, entries@[i].dest@));
    let mut lines: Vec<Vec<Segment>> = Vec::new();
    let mut i: usize = 0;
    assert(lines_view(lines@) =~= all.take(0));
    while i < entries.len()
        invariant
            all == Seq::new(entries@.len(), |i: int| config_file_line(prefix@, tag@, st, entries@[i].dest@)),
            i <= entries@.len(),
            lines_view(lines@) == all.take(i as int),
        decreases entries.len() - i,
    {
        let mut a = prefix.to_owned();
        a.append("[");
        let mut c = "] ".to_owned();
        c.append(entries[i].dest.as_str());
        push_line(&mut lines, line3(a, Style::Plain, tag.to_owned(), st, c, Style::Plain));
        assert(all.take(i + 1) =~= all.take(i as int).push(all[i as int]));
        i = i + 1;
    }
    assert(all.take(entries@.len() as int) == all);
    lines
}

fn orphan_lines(dests: &Vec<String>, prefix: &str) -> (r: Vec<Vec<Segment>>)
    ensures
        lines_view(r@) == Seq::new(
            dests@.len(),
            |i: int| seq![(prefix@, Style::Plain), ("[orphan]"@, Style::Red), (" "@ + dests@[i]@, Style::Plain)],
        ),
{
    let ghost all = Seq::new(
        dests@.len(),
        |i: int| seq![(prefix@, Style::Plain), ("[orphan]"@, Style::Red), (" "@ + dests@[i]@, Style::Plain)],
    );
    let mut lines: Vec<Vec<Segment>> = Vec::new();
    let mut i: usize = 0;
    assert(lines_view(lines@) =~= all.take(0));
    while i < dests.len()
        invariant
            all == Seq::new(
                dests@.len(),
                |i: int| seq![(prefix@, Style::Plain), ("[orphan]"@, Style::Red), (" "@ + dests@[i]@, Style::Plain)],
            ),
            i <= dests@.len(),
            lines_view(lines@) == all.take(i as int),
        decreases dests.len() - i,
    {
        let mut c = " ".to_owned();
        c.append(dests[i].as_str());
        push_line(&mut lines, line3(prefix.to_owned(), Style::Plain, "[orphan]".to_owned(), Style::Red, c, Style::Plain));
        assert(all.take(i + 1) =~= all.take(i as int).push(all[i as int]));
        i = i + 1;
    }
    assert(all.take(dests@.len() as int) == all);
    lines
}

/// The lines of one section of the diff tree: a heading with a count, then
/// its items.
pub fn render_section(config: &NTIXConfig, diff: &DiffResult, section: Section, is_last: bool) -> (r: Vec<Vec<Segment>>)
    requires
        config_file_total(diff@) <= usize::MAX,
    ensures
        lines_view(r@) == section_lines(config.imports@, diff@, section, is_last),
{
    let cont = tree_continuation("", is_last);
    let mut lines: Vec<Vec<Segment>> = Vec::new();
    match section {
        Section::Imports => {
            push_line(&mut lines, line2(tree_branch("", is_last), Style::Plain, "imports".to_owned(), Style::Dimmed));
            append_lines(&mut lines, print_import_children(&config.imports, cont.as_str()));
        },
        Section::ToInstall => {
            push_line(&mut lines, heading_line(is_last, "\u{2191} To install", diff.to_install.len(), Style::Green));
            append_lines(&mut lines, print_grouped(&diff.to_install, VersionStyle::Paren, cont.as_str()));
        },
        Section::ToUpgrade => {
            push_line(&mut lines, heading_line(is_last, "\u{2191} To upgrade", diff.to_upgrade.len(), Style::Yellow));
            append_lines(&mut lines, print_grouped(&diff.to_upgrade, VersionStyle::Arrow, cont.as_str()));
        },
        Section::ToAdopt => {
            push_line(&mut lines, heading_line(is_last, "\u{271a} To adopt", diff.to_adopt.len(), Style::Cyan));
            append_lines(&mut lines, print_grouped(&diff.to_adopt, VersionStyle::Paren, cont.as_str()));
        },
        Section::ToSkip => {
            push_line(&mut lines, heading_line(is_last, "\u{2713} Already managed", diff.to_skip.len(), Style::Dimmed));
        },
        Section::BucketsToAdd => {
            push_line(&mut lines, heading_line(is_last, "\u{2191} Buckets to add", diff.buckets_to_add.len(), Style::Green));
            append_lines(&mut lines, print_buckets(&diff.buckets_to_add, is_last));
        },
        Section::BucketsToRemove => {
            push_line(
                &mut lines,
                heading_line(is_last, "\u{2193} Buckets to remove", diff.buckets_to_remove.len(), Style::Red),
            );
            append_lines(&mut lines, print_buckets(&diff.buckets_to_remove, is_last));
        },
        Section::ToRemove => {
            push_line(&mut lines, heading_line(is_last, "\u{2717} Orphans", diff.to_remove.len(), Style::Red));
            append_lines(&mut lines, print_grouped(&diff.to_remove, VersionStyle::Hidden, cont.as_str()));
        },
        Section::ConfigFiles => {
            let total = diff.config_files_to_create.len() + diff.config_files_to_update.len()
                + diff.config_files_no_longer_managed.len();
            push_line(&mut lines, heading_line(is_last, "\u{2691} Config files", total, Style::White));
            append_lines(&mut lines, file_lines(&diff.config_files_to_create, cont.as_str(), "new", Style::Green));
            append_lines(&mut lines, file_lines(&diff.config_files_to_update, cont.as_str(), "update", Style::Yellow));
            append_lines(&mut lines, orphan_lines(&diff.config_files_no_longer_managed, cont.as_str()));
        },
    }
    assert(lines_view(lines@) =~= section_lines(config.imports@, diff@, section, is_last));
    lines
}


/// The section at a position of the tree.
pub open spec fn section_at(i: int) -> Section {
    if i == 0 {
        Section::Imports
    } else if i == 1 {
        Section::ToInstall
    } else if i == 2 {
        Section::ToUpgrade
    } else if i == 3 {
        Section::ToAdopt
    } else if i == 4 {
        Section::ToSkip
    } else if i == 5 {
        Section::BucketsToAdd
    } else if i == 6 {
        Section::BucketsToRemove
    } else if i == 7 {
        Section::ToRemove
    } else {
        Section::ConfigFiles
    }
}

/// Whether a section is shown: it has items; config files only when they
/// are managed.
pub open spec fn section_present(imports: Seq<ImportNode>, d: DiffResultView, apply_config: bool, sec: Section) -> bool {
    match sec {
        Section::Imports => imports.len() > 0,
        Section::ToInstall => d.to_install.len() > 0,
        Section::ToUpgrade => d.to_upgrade.len() > 0,
        Section::ToAdopt => d.to_adopt.len() > 0,
        Section::ToSkip => d.to_skip.len() > 0,
        Section::BucketsToAdd => d.buckets_to_add.len() > 0,
        Section::BucketsToRemove => d.buckets_to_remove.len() > 0,
        Section::ToRemove => d.to_remove.len() > 0,
        Section::ConfigFiles => apply_config && config_file_total(d) > 0,
    }
}

/// The position of the last section shown among the first `n`, or -1.
pub open spec fn last_present(imports: Seq<ImportNode>, d: DiffResultView, apply_config: bool, n: nat) -> int
    decreases n,
{
    if n == 0 {
        -1
    } else if section_present(imports, d, apply_config, section_at(n - 1)) {
        n - 1
    } else {
        last_present(imports, d, apply_config, (n - 1) as nat)
    }
}

/// The lines of the shown sections among the first `n`; the section at
/// `last` is drawn as the last branch.
pub open spec fn sections_upto(
    imports: Seq<ImportNode>,
    d: DiffResultView,
    apply_config: bool,
    last: int,
    n: nat,
) -> Seq<Seq<(Seq<char>, Style)>>
    decreases n,
{
    if n == 0 {
        seq![]
    } else {
        sections_upto(imports, d, apply_config, last, (n - 1) as nat) + if section_present(
            imports,
            d,
            apply_config,
            section_at(n - 1),
        ) {
            section_lines(imports, d, section_at(n - 1), n - 1 == last)
        } else {
            seq![]
        }
    }
}

/// The diff tree: the config file's name in bold, the sections that have
/// items, the last drawn as the last branch, and `Nothing to do.` when the
/// diff asks for no work.
pub open spec fn diff_tree_lines(file_name: Seq<char>, imports: Seq<ImportNode>, d: DiffResultView, apply_config: bool) -> Seq<
    Seq<(Seq<char>, Style)>,
> {
    seq![seq![(file_name, Style::Bold)]] + sections_upto(
        imports,
        d,
        apply_config,
        last_present(imports, d, apply_config, 9),
        9,
    ) + if diff_has_work(d) {
        seq![]
    } else {
        seq![seq![("Nothing to do."@, Style::Dimmed)]]
    }
}

fn section_number(i: usize) -> (s: Section)
    requires
        i < 9,
    ensures
        s == section_at(i as int),
{
    if i == 0 {
        Section::Imports
    } else if i == 1 {
        Section::ToInstall
    } else if i == 2 {
        Section::ToUpgrade
    } else if i == 3 {
        Section::ToAdopt
    } else if i == 4 {
        Section::ToSkip
    } else if i == 5 {
        Section::BucketsToAdd
    } else if i == 6 {
        Section::BucketsToRemove
    } else if i == 7 {
        Section::ToRemove
    } else {
        Section::ConfigFiles
    }
}

fn is_present(config: &NTIXConfig, diff: &DiffResult, apply_config: bool, section: Section) -> (b: bool)
    ensures
        b == section_present(config.imports@, diff@, apply_config, section),
{
    match section {
        Section::Imports => config.imports.len() > 0,
        Section::ToInstall => diff.to_install.len() > 0,
        Section::ToUpgrade => diff.to_upgrade.len() > 0,
        Section::ToAdopt => diff.to_adopt.len() > 0,
        Section::ToSkip => diff.to_skip.len() > 0,
        Section::BucketsToAdd => diff.buckets_to_add.len() > 0,
        Section::BucketsToRemove => diff.buckets_to_remove.len() > 0,
        Section::ToRemove => diff.to_remove.len() > 0,
        Section::ConfigFiles => apply_config && (diff.config_files_to_create.len() > 0
            || diff.config_files_to_update.len() > 0 || diff.config_files_no_longer_managed.len() > 0),
    }
}

/// The diff tree for a config: the file's name, the sections with items and
/// `Nothing to do.` when the diff asks for no work.
pub fn print_diff_tree(config_file_name: &str, config: &NTIXConfig, diff: &DiffResult, apply_config: bool) -> (r: Vec<
    Vec<Segment>,
>)
    requires
        config_file_total(diff@) <= usize::MAX,
    ensures
        lines_view(r@) == diff_tree_lines(config_file_name@, config.imports@, diff@, apply_config),
{
    let ghost last = last_present(config.imports@, diff@, apply_config, 9);
    let mut last_index: usize = 9;
    let mut k: usize = 0;
    while k < 9
        invariant
            k <= 9,
            last_index <= 9,
            last_index == 9 ==> last_present(config.imports@, diff@, apply_config, k as nat) == -1,
            last_index < 9 ==> last_index as int == last_present(config.imports@, diff@, apply_config, k as nat),
        decreases 9 - k,
    {
        if is_present(config, diff, apply_config, section_number(k)) {
            last_index = k;
        }
        k = k + 1;
    }
    let mut lines: Vec<Vec<Segment>> = Vec::new();
    push_line(&mut lines, line1(config_file_name.to_owned(), Style::Bold));
    let ghost head = lines_view(lines@);
    let mut i: usize = 0;
    while i < 9
        invariant
            i <= 9,
            config_file_total(diff@) <= usize::MAX,
            last_index <= 9,
            last_index == 9 ==> last == -1,
            last_index < 9 ==> last_index as int == last,
            lines_view(lines@) == head + sections_upto(config.imports@, diff@, apply_config, last, i as nat),
        decreases 9 - i,
    {
        let section = section_number(i);
        let ghost before = lines_view(lines@);
        if is_present(config, diff, apply_config, section) {
            assert((i == last_index) == (i as int == last));
            append_lines(&mut lines, render_section(config, diff, section, i == last_index));
        }
        assert(lines_view(lines@) =~= head + sections_upto(config.imports@, diff@, apply_config, last, (i + 1) as nat));
        i = i + 1;
    }
    if diff.is_empty() {
        push_line(&mut lines, line1("Nothing to do.".to_owned(), Style::Dimmed));
    }
    lines
}

/// At most the first eight characters of a text.
pub open spec fn short(h: Seq<char>) -> Seq<char> {
    if h.len() <= 8 {
        h
    } else {
        h.take(8)
    }
}

/// The listing of one manager's packages in the state.
pub open spec fn state_entry_lines(m: Seq<(Seq<char>, String)>, name: Seq<char>, st: Style) -> Seq<Seq<(Seq<char>, Style)>> {
    Seq::new(m.len(), |i: int| seq![("  "@, Style::Plain), (name + ": "@ + m[i].0 + " ("@ + m[i].1@ + ")"@, st)])
}

/// The listing of the managed config files: destination and the start of
/// the hash.
pub open spec fn state_file_lines(m: Seq<(Seq<char>, String)>) -> Seq<Seq<(Seq<char>, Style)>> {
    Seq::new(m.len(), |i: int| seq![("    "@, Style::Plain), (m[i].0 + " ("@ + short(m[i].1@) + ")"@, Style::White)])
}

/// The listing of the state: every managed package per manager (or
/// `(empty)`), then the managed config files when there are any.
pub open spec fn state_lines(s: Option<State>) -> Seq<Seq<(Seq<char>, Style)>> {
    match s {
        None => seq![seq![("No state file found."@, Style::Yellow)]],
        Some(st) => seq![seq![("NTIX State:"@, Style::Bold)]] + (if st.winget@.len() == 0 && st.chocolatey@.len() == 0
            && st.scoop@.len() == 0 {
            seq![seq![("  "@, Style::Plain), ("(empty)"@, Style::Dimmed)]]
        } else {
            state_entry_lines(st.winget@, "winget"@, Style::Cyan) + state_entry_lines(
                st.chocolatey@,
                "chocolatey"@,
                Style::Magenta,
            ) + state_entry_lines(st.scoop@, "scoop"@, Style::Blue)
        }) + if st.config_files@.len() > 0 {
            seq![seq![("  "@, Style::Plain), ("config files:"@, Style::Bold)]] + state_file_lines(st.config_files@)
        } else {
            seq![]
        },
    }
}

fn entry_lines(m: &crate::str_map::StrMap<String>, name: &str, st: Style) -> (r: Vec<Vec<Segment>>)
    ensures
        lines_view(r@) == state_entry_lines(m@, name@, st),
{
    let ghost all = state_entry_lines(m@, name@, st);
    let mut lines: Vec<Vec<Segment>> = Vec::new();
    let mut i: usize = 0;
    let n = m.len();
    assert(lines_view(lines@) =~= all.take(0));
    while i < n
        invariant
            n == m@.len(),
            all == state_entry_lines(m@, name@, st),
            i <= n,
            lines_view(lines@) == all.take(i as int),
        decreases n - i,
    {
        let mut text = name.to_owned();
        text.append(": ");
        text.append(m.key_at(i).as_str());
        text.append(" (");
        text.append(m.value_at(i).as_str());
        text.append(")");
        push_line(&mut lines, line2("  ".to_owned(), Style::Plain, text, st));
        assert(all.take(i + 1) =~= all.take(i as int).push(all[i as int]));
        i = i + 1;
    }
    assert(all.take(n as int) == all);
    lines
}

fn file_hash_lines(m: &crate::str_map::StrMap<String>) -> (r: Vec<Vec<Segment>>)
    ensures
        lines_view(r@) == state_file_lines(m@),
{
    let ghost all = state_file_lines(m@);
    let mut lines: Vec<Vec<Segment>> = Vec::new();
    let mut i: usize = 0;
    let n = m.len();
    assert(lines_view(lines@) =~= all.take(0));
    while i < n
        invariant
            n == m@.len(),
            all == state_file_lines(m@),
            i <= n,
            lines_view(lines@) == all.take(i as int),
        decreases n - i,
    {
        let mut text = m.key_at(i).clone();
        text.append(" (");
        let h = chars_of(m.value_at(i).as_str());
        let end = if h.len() <= 8 { h.len() } else { 8 };
        let head = string_of(&h, 0, end);
        assert(h@.subrange(0, h@.len() as int) == h@);
        text.append(head.as_str());
        text.append(")");
        push_line(&mut lines, line2("    ".to_owned(), Style::Plain, text, Style::White));
        assert(all.take(i + 1) =~= all.take(i as int).push(all[i as int]));
        i = i + 1;
    }
    assert(all.take(n as int) == all);
    lines
}

/// The listing `ntix state` prints, for the loaded state or when there is
/// none.
pub fn state_report(state: Option<&State>) -> (r: Vec<Vec<Segment>>)
    ensures
        lines_view(r@) == state_lines(match state {
            Some(s) => Some(*s),
            None => None,
        }),
{
    let mut lines: Vec<Vec<Segment>> = Vec::new();
    match state {
        None => {
            push_line(&mut lines, line1("No state file found.".to_owned(), Style::Yellow));
        },
        Some(st) => {
            push_line(&mut lines, line1("NTIX State:".to_owned(), Style::Bold));
            if st.winget.is_empty() && st.chocolatey.is_empty() && st.scoop.is_empty() {
                push_line(&mut lines, line2("  ".to_owned(), Style::Plain, "(empty)".to_owned(), Style::Dimmed));
            } else {
                append_lines(&mut lines, entry_lines(&st.winget, "winget", Style::Cyan));
                append_lines(&mut lines, entry_lines(&st.chocolatey, "chocolatey", Style::Magenta));
                append_lines(&mut lines, entry_lines(&st.scoop, "scoop", Style::Blue));
            }
            if !st.config_files.is_empty() {
                push_line(&mut lines, line2("  ".to_owned(), Style::Plain, "config files:".to_owned(), Style::Bold));
                append_lines(&mut lines, file_hash_lines(&st.config_files));
            }
        },
    }
    lines
}

} // verus!
