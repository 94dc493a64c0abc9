//! Reading what Chocolatey prints with `--limit-output`: lines of fields
//! separated by `|`.
//!
//! The records are found the way the pattern `(?m)^([^|]+)\|([^|]+)$` (and
//! its three-field form for `outdated`) finds them, leftmost first: a field
//! may run over a line break, and a record ends where a line does.
use vstd::prelude::*;

use crate::models::installed_packages::UpgradeInfo;
use crate::str_map::{lemma_map_vals, map_vals, pairs_insert, string_pairs, StrMap};
use crate::text::{ascii_lower, chars_of, string_of, trim, trim_bounds};

verus! {

/// The first position at or after `i` holding `c`, or the length.
pub open spec fn first_from(s: Seq<char>, i: int, c: char) -> int
    decreases s.len() - i,
{
    if i < 0 || i >= s.len() {
        s.len() as int
    } else if s[i] == c {
        i
    } else {
        first_from(s, i + 1, c)
    }
}

/// The last position in `[lo, hi)` holding a line break, or -1.
pub open spec fn last_newline(s: Seq<char>, lo: int, hi: int) -> int
    decreases hi - lo,
{
    if hi <= lo {
        -1
    } else if s[hi - 1] == '\n' {
        hi - 1
    } else {
        last_newline(s, lo, hi - 1)
    }
}

/// Position `p` starts a line.
pub open spec fn line_start(s: Seq<char>, p: int) -> bool {
    p == 0 || (0 < p <= s.len() && s[p - 1] == '\n')
}

/// Where a two-field record starting at `p` ends, or -1 when none starts
/// there: the first field runs to the next `|`, the second is the longest
/// run without `|` that ends at a line break or the end of the text.
pub open spec fn pair_end(s: Seq<char>, p: int) -> int {
    if !line_start(s, p) || p >= s.len() {
        -1
    } else {
        let q = first_from(s, p, '|');
        if q >= s.len() || q == p {
            -1
        } else {
            let q2 = first_from(s, q + 1, '|');
            if q2 >= s.len() {
                if s.len() > q + 1 {
                    s.len() as int
                } else {
                    -1
                }
            } else {
                last_newline(s, q + 2, q2)
            }
        }
    }
}

/// The two-field records from position `pos` on, as untrimmed fields.
pub open spec fn pairs_from(s: Seq<char>, pos: int) -> Seq<(Seq<char>, Seq<char>)>
    decreases s.len() - pos,
{
    if pos < 0 || pos >= s.len() {
        seq![]
    } else {
        let r = pair_end(s, pos);
        if r > pos && r <= s.len() {
            let q = first_from(s, pos, '|');
            seq![(s.subrange(pos, q), s.subrange(q + 1, r))] + pairs_from(s, r)
        } else {
            pairs_from(s, pos + 1)
        }
    }
}

/// The installed versions by id: each record with a non-blank id and
/// version, fields trimmed; a later record with the same id wins.
pub open spec fn choco_installed_pairs(recs: Seq<(Seq<char>, Seq<char>)>) -> Seq<(Seq<char>, Seq<char>)>
    decreases recs.len(),
{
    if recs.len() == 0 {
        seq![]
    } else {
        let prev = choco_installed_pairs(recs.drop_last());
        let id = trim(recs.last().0);
        let ver = trim(recs.last().1);
        if id.len() > 0 && ver.len() > 0 {
            pairs_insert(prev, id, ver)
        } else {
            prev
        }
    }
}

/// What `choco list` printed, read: empty output is an error.
pub open spec fn choco_list(output: Seq<char>) -> Option<Seq<(Seq<char>, Seq<char>)>> {
    if output.len() == 0 {
        None
    } else {
        Some(choco_installed_pairs(pairs_from(output, 0)))
    }
}

pub proof fn lemma_first_from(s: Seq<char>, i: int, c: char)
    requires
        0 <= i,
    ensures
        i <= first_from(s, i, c) <= s.len() || (i > s.len() && first_from(s, i, c) == s.len()),
        first_from(s, i, c) < s.len() ==> s[first_from(s, i, c)] == c,
        forall|k: int| i <= k < first_from(s, i, c) ==> s[k] != c,
    decreases s.len() - i,
{
    if i < s.len() && s[i] != c {
        lemma_first_from(s, i + 1, c);
    }
}

pub proof fn lemma_last_newline(s: Seq<char>, lo: int, hi: int)
    ensures
        last_newline(s, lo, hi) == -1 || (lo <= last_newline(s, lo, hi) < hi),
    decreases hi - lo,
{
    if hi > lo && s[hi - 1] != '\n' {
        lemma_last_newline(s, lo, hi - 1);
    }
}

/// The first position at or after `i` holding `c`, or the length.
fn find_from(v: &Vec<char>, i: usize, c: char) -> (r: usize)
    requires
        i <= v@.len(),
    ensures
        r as int == first_from(v@, i as int, c),
        i <= r <= v@.len(),
{
    let mut k = i;
    while k < v.len() && v[k] != c
        invariant
            i <= k <= v@.len(),
            first_from(v@, i as int, c) == first_from(v@, k as int, c),
        decreases v.len() - k,
    {
        k = k + 1;
    }
    k
}

/// The last position in `[lo, hi)` holding a line break, if any.
fn find_last_newline(v: &Vec<char>, lo: usize, hi: usize) -> (r: Option<usize>)
    requires
        hi <= v@.len(),
    ensures
        match r {
            Some(k) => k as int == last_newline(v@, lo as int, hi as int) && lo <= k < hi,
            None => last_newline(v@, lo as int, hi as int) == -1,
        },
{
    let mut k = hi;
    while k > lo && v[k - 1] != '\n'
        invariant
            k <= hi <= v@.len(),
            last_newline(v@, lo as int, hi as int) == last_newline(v@, lo as int, k as int),
        decreases k,
    {
        k = k - 1;
    }
    if k > lo {
        Some(k - 1)
    } else {
        None
    }
}

/// Where a two-field record starting at `p` ends, if one starts there.
fn pair_end_at(v: &Vec<char>, p: usize) -> (r: Option<usize>)
    requires
        p < v@.len(),
    ensures
        match r {
            Some(e) => e as int == pair_end(v@, p as int) && e > p && first_from(v@, p as int, '|')
                + 1 < e <= v@.len(),
            None => pair_end(v@, p as int) <= p as int,
        },
{
    if !(p == 0 || v[p - 1] == '\n') {
        return None;
    }
    let q = find_from(v, p, '|');
    if q >= v.len() || q == p {
        return None;
    }
    let q2 = find_from(v, q + 1, '|');
    if q2 >= v.len() {
        if v.len() > q + 1 {
            Some(v.len())
        } else {
            None
        }
    } else {
        proof {
            lemma_last_newline(v@, q + 2, q2 as int);
        }
        match find_last_newline(v, q + 2, q2) {
            Some(k) => Some(k),
            None => None,
        }
    }
}

/// The trimmed fields `v[lo..hi]`, when not blank.
fn trimmed_field(v: &Vec<char>, lo: usize, hi: usize) -> (r: Option<String>)
    requires
        lo <= hi <= v@.len(),
    ensures
        match r {
            Some(s) => s@ == trim(v@.subrange(lo as int, hi as int)) && s@.len() > 0,
            None => trim(v@.subrange(lo as int, hi as int)).len() == 0,
        },
{
    let (a, b) = trim_bounds(v, lo, hi);
    if a < b {
        Some(string_of(v, a, b))
    } else {
        None
    }
}

/// Reads `choco list -r --local-only --limit-output`: installed versions by
/// id; empty output is an error.
pub fn parse_choco_list(output: &str) -> (r: Option<StrMap<String>>)
    ensures
        match r {
            Some(m) => choco_list(output@) == Some(string_pairs(m@)),
            None => choco_list(output@) is None,
        },
{
    let v = chars_of(output);
    if v.len() == 0 {
        return None;
    }
    let mut m: StrMap<String> = StrMap::new();
    let mut pos: usize = 0;
    let ghost mut done: Seq<(Seq<char>, Seq<char>)> = seq![];
    assert(string_pairs(m@) =~= Seq::<(Seq<char>, Seq<char>)>::empty());
    while pos < v.len()
        invariant
            v@ == output@,
            pos <= v@.len(),
            pairs_from(v@, 0) == done + pairs_from(v@, pos as int),
            string_pairs(m@) == choco_installed_pairs(done),
        decreases v.len() - pos,
    {
        match pair_end_at(&v, pos) {
            Some(e) => {
                let q = find_from(&v, pos, '|');
                proof {
                    lemma_first_from(v@, pos as int, '|');
                }
                let ghost rec = (v@.subrange(pos as int, q as int), v@.subrange(q + 1, e as int));
                let id = trimmed_field(&v, pos, q);
                let ver = trimmed_field(&v, q + 1, e);
                let ghost prev = done;
                proof {
                    done = done.push(rec);
                    assert(done.drop_last() == prev);
                    assert(pairs_from(v@, pos as int) == seq![rec] + pairs_from(v@, e as int));
                    assert(prev + (seq![rec] + pairs_from(v@, e as int)) == done + pairs_from(
                        v@,
                        e as int,
                    ));
                }
                match (id, ver) {
                    (Some(i), Some(x)) => {
                        proof {
                            lemma_map_vals(m@, |s: String| s@, i@, x);
                        }
                        m.insert(i, x);
                    },
                    _ => {},
                }
                pos = e;
            },
            None => {
                pos = pos + 1;
            },
        }
    }
    assert(pairs_from(v@, pos as int) == Seq::<(Seq<char>, Seq<char>)>::empty());
    assert(done + Seq::<(Seq<char>, Seq<char>)>::empty() == done);
    Some(m)
}

/// Where a record of three fields and a tail starting at `p` ends, or -1:
/// the three fields each run to the next `|`, and the tail to the end of
/// the line.
pub open spec fn triple_end(s: Seq<char>, p: int) -> int {
    if !line_start(s, p) || p >= s.len() {
        -1
    } else {
        let q1 = first_from(s, p, '|');
        let q2 = first_from(s, q1 + 1, '|');
        let q3 = first_from(s, q2 + 1, '|');
        if q1 >= s.len() || q1 == p || q2 >= s.len() || q2 == q1 + 1 || q3 >= s.len() || q3 == q2
            + 1 {
            -1
        } else {
            first_from(s, q3 + 1, '\n')
        }
    }
}

/// The three-field records from position `pos` on, as untrimmed fields.
pub open spec fn triples_from(s: Seq<char>, pos: int) -> Seq<(Seq<char>, Seq<char>, Seq<char>)>
    decreases s.len() - pos,
{
    if pos < 0 || pos >= s.len() {
        seq![]
    } else {
        let r = triple_end(s, pos);
        if r > pos && r <= s.len() {
            let q1 = first_from(s, pos, '|');
            let q2 = first_from(s, q1 + 1, '|');
            let q3 = first_from(s, q2 + 1, '|');
            seq![(s.subrange(pos, q1), s.subrange(q1 + 1, q2), s.subrange(q2 + 1, q3))]
                + triples_from(s, r)
        } else {
            triples_from(s, pos + 1)
        }
    }
}

/// The offered upgrades by id, current and available version: each record
/// with no blank field, fields trimmed; a later record with the same id wins.
pub open spec fn choco_upgrade_pairs(recs: Seq<(Seq<char>, Seq<char>, Seq<char>)>) -> Seq<
    (Seq<char>, (Seq<char>, Seq<char>)),
>
    decreases recs.len(),
{
    if recs.len() == 0 {
        seq![]
    } else {
        let prev = choco_upgrade_pairs(recs.drop_last());
        let id = trim(recs.last().0);
        let cur = trim(recs.last().1);
        let avail = trim(recs.last().2);
        if id.len() > 0 && cur.len() > 0 && avail.len() > 0 {
            pairs_insert(prev, id, (cur, avail))
        } else {
            prev
        }
    }
}

/// Where a three-field record starting at `p` ends, if one starts there.
fn triple_end_at(v: &Vec<char>, p: usize) -> (r: Option<(usize, usize, usize, usize)>)
    requires
        p < v@.len(),
    ensures
        match r {
            Some((q1, q2, q3, e)) => {
                &&& e as int == triple_end(v@, p as int)
                &&& e > p
                &&& q1 as int == first_from(v@, p as int, '|')
                &&& q2 as int == first_from(v@, q1 + 1, '|')
                &&& q3 as int == first_from(v@, q2 + 1, '|')
                &&& p < q1 < q2 < q3 < e <= v@.len()
            },
            None => triple_end(v@, p as int) <= p as int,
        },
{
    if !(p == 0 || v[p - 1] == '\n') {
        return None;
    }
    let q1 = find_from(v, p, '|');
    if q1 >= v.len() || q1 == p {
        return None;
    }
    let q2 = find_from(v, q1 + 1, '|');
    if q2 >= v.len() || q2 == q1 + 1 {
        return None;
    }
    let q3 = find_from(v, q2 + 1, '|');
    if q3 >= v.len() || q3 == q2 + 1 {
        return None;
    }
    let e = find_from(v, q3 + 1, '\n');
    Some((q1, q2, q3, e))
}

/// Reads `choco outdated --limit-output`: the offered upgrades by id.
pub fn parse_choco_outdated(output: &str) -> (m: StrMap<UpgradeInfo>)
    ensures
        map_vals(m@, |u: UpgradeInfo| (u.current_version@, u.available_version@)) == choco_upgrade_pairs(
            triples_from(output@, 0),
        ),
{
    let v = chars_of(output);
    let ghost f = |u: UpgradeInfo| (u.current_version@, u.available_version@);
    let mut m: StrMap<UpgradeInfo> = StrMap::new();
    let mut pos: usize = 0;
    let ghost mut done: Seq<(Seq<char>, Seq<char>, Seq<char>)> = seq![];
    assert(map_vals(m@, f) =~= Seq::<(Seq<char>, (Seq<char>, Seq<char>))>::empty());
    while pos < v.len()
        invariant
            v@ == output@,
            pos <= v@.len(),
            f == (|u: UpgradeInfo| (u.current_version@, u.available_version@)),
            triples_from(v@, 0) == done + triples_from(v@, pos as int),
            map_vals(m@, f) == choco_upgrade_pairs(done),
        decreases v.len() - pos,
    {
        match triple_end_at(&v, pos) {
            Some((q1, q2, q3, e)) => {
                let ghost rec = (
                    v@.subrange(pos as int, q1 as int),
                    v@.subrange(q1 + 1, q2 as int),
                    v@.subrange(q2 + 1, q3 as int),
                );
                let id = trimmed_field(&v, pos, q1);
                let cur = trimmed_field(&v, q1 + 1, q2);
                let avail = trimmed_field(&v, q2 + 1, q3);
                let ghost prev = done;
                proof {
                    done = done.push(rec);
                    assert(done.drop_last() == prev);
                    assert(triples_from(v@, pos as int) == seq![rec] + triples_from(v@, e as int));
                    assert(prev + (seq![rec] + triples_from(v@, e as int)) == done + triples_from(
                        v@,
                        e as int,
                    ));
                }
                match (id, cur, avail) {
                    (Some(i), Some(c), Some(a)) => {
                        let info = UpgradeInfo { current_version: c, available_version: a };
                        proof {
                            lemma_map_vals(m@, f, i@, info);
                        }
                        m.insert(i, info);
                    },
                    _ => {},
                }
                pos = e;
            },
            None => {
                pos = pos + 1;
            },
        }
    }
    assert(triples_from(v@, pos as int) == Seq::<(Seq<char>, Seq<char>, Seq<char>)>::empty());
    assert(done + Seq::<(Seq<char>, Seq<char>, Seq<char>)>::empty() == done);
    m
}

/// A character of the output matches a character of the id ignoring case,
/// as the pattern's case-insensitive mode has it: ASCII letters of either
/// case, and the Kelvin sign for `k` and the long s for `s`.
pub open spec fn folds_to(pat: char, t: char) -> bool {
    ||| ascii_lower(pat) == ascii_lower(t)
    ||| (ascii_lower(pat) == 'k' && t == '\u{212A}')
    ||| (ascii_lower(pat) == 's' && t == '\u{17F}')
}

/// At position `p`, which starts a line, the id appears ignoring case and is
/// followed by `|`.
pub open spec fn id_record_at(s: Seq<char>, id: Seq<char>, p: int) -> bool {
    &&& line_start(s, p)
    &&& p + id.len() < s.len()
    &&& forall|j: int| 0 <= j < id.len() ==> folds_to(#[trigger] id[j], s[p + j])
    &&& s[p + id.len()] == '|'
}

/// What `choco search --limit-output` printed says of a package: nothing
/// printed means it does not exist; a line that starts with its id and `|`
/// means it does; anything else is unknown.
pub open spec fn choco_search_answer(output: Seq<char>, id: Seq<char>) -> Option<bool> {
    if output.len() == 0 {
        Some(false)
    } else if exists|p: int| #[trigger] id_record_at(output, id, p) {
        Some(true)
    } else {
        None
    }
}

/// Any line of the search output that starts with the id and `|` answers
/// yes, whichever line it is; empty output answers no; output without a
/// single `|` answers neither. The id is matched ignoring ASCII case.
pub proof fn lemma_choco_search_lines(
    before: Seq<char>,
    id: Seq<char>,
    after: Seq<char>,
    output: Seq<char>,
    line_id: Seq<char>,
)
    ensures
        line_id.len() == id.len() && (forall|j: int|
            0 <= j < id.len() ==> ascii_lower(#[trigger] line_id[j]) == ascii_lower(id[j])) ==> choco_search_answer(
            before + "\n"@ + line_id + "|"@ + after,
            id,
        ) == Some(true),
        choco_search_answer(before + "\n"@ + id + "|"@ + after, id) == Some(true),
        choco_search_answer(id + "|"@ + after, id) == Some(true),
        choco_search_answer(Seq::<char>::empty(), id) == Some(false),
        output.len() > 0 && (forall|k: int| 0 <= k < output.len() ==> output[k] != '|') ==> choco_search_answer(
            output,
            id,
        ) is None,
{
    let s1 = before + "\n"@ + id + "|"@ + after;
    let p1: int = before.len() as int + 1;
    assert(("\n"@)[0] == '\n') by {
        reveal_strlit("\n");
    }
    assert(("|"@)[0] == '|' && "|"@.len() == 1) by {
        reveal_strlit("|");
    }
    assert("\n"@.len() == 1) by {
        reveal_strlit("\n");
    }
    assert(s1[p1 - 1] == '\n');
    assert forall|j: int| 0 <= j < id.len() implies folds_to(#[trigger] id[j], s1[p1 + j]) by {
        assert(s1[p1 + j] == id[j]);
    }
    assert(s1[p1 + id.len()] == '|');
    assert(id_record_at(s1, id, p1));
    if line_id.len() == id.len() && (forall|j: int|
        0 <= j < id.len() ==> ascii_lower(#[trigger] line_id[j]) == ascii_lower(id[j])) {
        let s3 = before + "\n"@ + line_id + "|"@ + after;
        assert(s3[p1 - 1] == '\n');
        assert forall|j: int| 0 <= j < id.len() implies folds_to(#[trigger] id[j], s3[p1 + j]) by {
            assert(s3[p1 + j] == line_id[j]);
        }
        assert(s3[p1 + id.len()] == '|');
        assert(id_record_at(s3, id, p1));
    }
    let s2 = id + "|"@ + after;
    assert forall|j: int| 0 <= j < id.len() implies folds_to(#[trigger] id[j], s2[j]) by {
        assert(s2[j] == id[j]);
    }
    assert(s2[id.len() as int] == '|');
    assert(id_record_at(s2, id, 0));
    if output.len() > 0 && (forall|k: int| 0 <= k < output.len() ==> output[k] != '|') {
        assert forall|p: int| !id_record_at(output, id, p) by {
            if id_record_at(output, id, p) {
                assert(output[p + id.len()] == '|');
            }
        }
    }
}

fn char_folds_to(pat: char, t: char) -> (b: bool)
    ensures
        b == folds_to(pat, t),
{
    let lp = crate::text::char_ascii_lower(pat);
    lp == crate::text::char_ascii_lower(t) || (lp == 'k' && t == '\u{212A}') || (lp == 's' && t
        == '\u{17F}')
}

fn record_at(v: &Vec<char>, id: &Vec<char>, p: usize) -> (b: bool)
    requires
        p <= v@.len(),
    ensures
        b == id_record_at(v@, id@, p as int),
{
    if !(p == 0 || v[p - 1] == '\n') {
        return false;
    }
    let n = v.len();
    if id.len() >= n - p {
        return false;
    }
    let mut j: usize = 0;
    while j < id.len()
        invariant
            n == v@.len(),
            j <= id@.len(),
            p + id@.len() < v@.len(),
            forall|k: int| 0 <= k < j ==> folds_to(#[trigger] id@[k], v@[p + k]),
        decreases id.len() - j,
    {
        if !char_folds_to(id[j], v[p + j]) {
            return false;
        }
        j = j + 1;
    }
    v[p + id.len()] == '|'
}

/// What `choco search` printed says of a package.
pub fn parse_choco_search(output: &str, id: &str) -> (r: Option<bool>)
    ensures
        r == choco_search_answer(output@, id@),
{
    let v = chars_of(output);
    let idv = chars_of(id);
    if v.len() == 0 {
        return Some(false);
    }
    let mut p: usize = 0;
    while p < v.len()
        invariant
            v@ == output@,
            idv@ == id@,
            p <= v@.len(),
            forall|k: int| 0 <= k < p ==> !id_record_at(v@, id@, k),
        decreases v.len() - p,
    {
        if record_at(&v, &idv, p) {
            return Some(true);
        }
        p = p + 1;
    }
    assert forall|k: int| !id_record_at(v@, id@, k) by {
        if k >= p {
            assert(!(k + id@.len() < v@.len()));
        }
    }
    None
}

} // verus!
