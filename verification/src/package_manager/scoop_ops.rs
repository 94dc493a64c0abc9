//! Reading what Scoop prints.
use vstd::prelude::*;

use crate::models::installed_packages::UpgradeInfo;
use crate::package_manager::choco_ops::line_start;
use crate::str_map::{lemma_map_vals, map_vals, pairs_insert, string_pairs, StrMap};
use crate::text::{
    char_is_ws, chars_of, contains, eq_ignore_ascii_case, is_ws, lowercase, opt_view,
    range_contains, range_eq_ignore_ascii_case, range_starts_with, split_newlines, starts_with,
    str_contains, string_of, to_lowercase, token_bounds, tokens_of, trim, trim_bounds,
};

verus! {

/// A line of `scoop list` that lists no package: blank, a rule, the
/// `Installed apps` and `Name` headers, or the note that there are none.
pub open spec fn scoop_list_skipped(t: Seq<char>) -> bool {
    ||| t.len() == 0
    ||| t[0] == '-'
    ||| starts_with(t, "Installed"@)
    ||| starts_with(t, "Name"@)
    ||| contains(t, "aren't any"@)
}

/// The installed versions by id: the first two words of each listing line;
/// a later line with the same id wins.
pub open spec fn scoop_installed_pairs(pieces: Seq<Seq<char>>) -> Seq<(Seq<char>, Seq<char>)>
    decreases pieces.len(),
{
    if pieces.len() == 0 {
        seq![]
    } else {
        let prev = scoop_installed_pairs(pieces.drop_last());
        let t = trim(pieces.last());
        let words = tokens_of(t);
        if !scoop_list_skipped(t) && words.len() >= 2 {
            pairs_insert(prev, words[0], words[1])
        } else {
            prev
        }
    }
}

/// What `scoop list` printed, read line by line (split at `'\n'`): empty
/// output is an error.
pub open spec fn scoop_list(output: Seq<char>) -> Option<Seq<(Seq<char>, Seq<char>)>> {
    if output.len() == 0 {
        None
    } else {
        Some(scoop_installed_pairs(split_newlines(output)))
    }
}

/// The pieces of a text between `'\n'` characters, as bounds.
fn piece_bounds(v: &Vec<char>) -> (r: Vec<(usize, usize)>)
    ensures
        forall|k: int| 0 <= k < r@.len() ==> #[trigger] r@[k].0 <= r@[k].1 <= v@.len(),
        r@.map_values(|b: (usize, usize)| v@.subrange(b.0 as int, b.1 as int)) == split_newlines(v@),
{
    let mut r: Vec<(usize, usize)> = Vec::new();
    let mut start: usize = 0;
    let mut i: usize = 0;
    assert(v@.skip(0) == v@);
    assert(v@.subrange(0, 0) == Seq::<char>::empty());
    assert(r@.map_values(|b: (usize, usize)| v@.subrange(b.0 as int, b.1 as int)) == Seq::<Seq<char>>::empty());
    while i < v.len()
        invariant
            start <= i <= v@.len(),
            forall|k: int| 0 <= k < r@.len() ==> #[trigger] r@[k].0 <= r@[k].1 <= v@.len(),
            split_newlines(v@) == r@.map_values(|b: (usize, usize)| v@.subrange(b.0 as int, b.1 as int))
                + crate::text::pieces_from(v@.subrange(start as int, i as int), v@.skip(i as int)),
        decreases v.len() - i,
    {
        let ghost cur = v@.subrange(start as int, i as int);
        let ghost old_r = r@;
        assert(v@.skip(i as int)[0] == v@[i as int]);
        assert(v@.skip(i as int).drop_first() == v@.skip(i + 1));
        if v[i] == '\n' {
            r.push((start, i));
            assert forall|k: int| 0 <= k < r@.len() implies #[trigger] r@[k].0 <= r@[k].1 <= v@.len() by {
                if k < old_r.len() {
                    assert(r@[k] == old_r[k]);
                }
            }
            assert(r@.map_values(|b: (usize, usize)| v@.subrange(b.0 as int, b.1 as int)) == old_r.map_values(
                |b: (usize, usize)| v@.subrange(b.0 as int, b.1 as int),
            ).push(cur));
            i = i + 1;
            start = i;
            assert(v@.subrange(start as int, i as int) == Seq::<char>::empty());
        } else {
            assert(cur.push(v@[i as int]) == v@.subrange(start as int, i + 1));
            i = i + 1;
        }
    }
    let ghost old_r = r@;
    r.push((start, i));
    assert(r@.map_values(|b: (usize, usize)| v@.subrange(b.0 as int, b.1 as int)) == old_r.map_values(
        |b: (usize, usize)| v@.subrange(b.0 as int, b.1 as int),
    ).push(v@.subrange(start as int, i as int)));
    assert forall|k: int| 0 <= k < r@.len() implies #[trigger] r@[k].0 <= r@[k].1 <= v@.len() by {
        if k < old_r.len() {
            assert(r@[k] == old_r[k]);
        }
    }
    r
}

/// Reads `scoop list`: installed versions by id; empty output is an error.
pub fn parse_scoop_list(output: &str) -> (r: Option<StrMap<String>>)
    ensures
        match r {
            Some(m) => scoop_list(output@) == Some(string_pairs(m@)),
            None => scoop_list(output@) is None,
        },
{
    let v = chars_of(output);
    if v.len() == 0 {
        return None;
    }
    proof {
        reveal_strlit("Installed");
        reveal_strlit("Name");
        reveal_strlit("aren't any");
    }
    let installed = chars_of("Installed");
    let name = chars_of("Name");
    let none = chars_of("aren't any");
    let bounds = piece_bounds(&v);
    let ghost ps = split_newlines(v@);
    let mut m: StrMap<String> = StrMap::new();
    let mut i: usize = 0;
    assert(ps.take(0) == Seq::<Seq<char>>::empty());
    assert(string_pairs(m@) =~= Seq::<(Seq<char>, Seq<char>)>::empty());
    while i < bounds.len()
        invariant
            v@ == output@,
            installed@ == "Installed"@,
            name@ == "Name"@,
            none@ == "aren't any"@,
            ps == split_newlines(v@),
            forall|k: int| 0 <= k < bounds@.len() ==> #[trigger] bounds@[k].0 <= bounds@[k].1 <= v@.len(),
            bounds@.map_values(|b: (usize, usize)| v@.subrange(b.0 as int, b.1 as int)) == ps,
            i <= bounds@.len(),
            string_pairs(m@) == scoop_installed_pairs(ps.take(i as int)),
        decreases bounds.len() - i,
    {
        let (lo, hi) = bounds[i];
        assert(ps[i as int] == v@.subrange(lo as int, hi as int));
        assert(ps.take(i + 1).drop_last() == ps.take(i as int));
        assert(ps.take(i + 1).last() == ps[i as int]);
        let (a, b) = trim_bounds(&v, lo, hi);
        let ghost t = v@.subrange(a as int, b as int);
        let skipped = a == b || v[a] == '-' || range_starts_with(&v, a, b, &installed)
            || range_starts_with(&v, a, b, &name) || range_contains(&v, a, b, &none);
        proof {
            if a < b {
                assert(t[0] == v@[a as int]);
            }
        }
        assert(skipped == scoop_list_skipped(t));
        if !skipped {
            let t_str = string_of(&v, a, b);
            let tv = chars_of(t_str.as_str());
            let words = token_bounds(&tv);
            if words.len() >= 2 {
                let (w0a, w0b) = words[0];
                let (w1a, w1b) = words[1];
                let id = string_of(&tv, w0a, w0b);
                let ver = string_of(&tv, w1a, w1b);
                proof {
                    lemma_map_vals(m@, |s: String| s@, id@, ver);
                }
                m.insert(id, ver);
            }
        }
        i = i + 1;
    }
    assert(ps.take(bounds@.len() as int) == ps);
    Some(m)
}

/// The first position at or after `k` that is not whitespace, or the length.
pub open spec fn ws_end(s: Seq<char>, k: int) -> int
    decreases s.len() - k,
{
    if k < 0 || k >= s.len() {
        s.len() as int
    } else if is_ws(s[k]) {
        ws_end(s, k + 1)
    } else {
        k
    }
}

/// At line start `p`, after any whitespace, the word `Name` in any case,
/// then any whitespace and a colon: what the pattern `(?mi)^\s*Name\s*:`
/// finds. Whitespace here includes line breaks, as `\s` does.
pub open spec fn name_field_at(s: Seq<char>, p: int) -> bool {
    let i = ws_end(s, p);
    let j = ws_end(s, i + 4);
    &&& line_start(s, p)
    &&& i + 4 <= s.len()
    &&& eq_ignore_ascii_case(s.subrange(i, i + 4), "Name"@)
    &&& j < s.len()
    &&& s[j] == ':'
}

/// What `scoop info` printed says of a package: a `Name:` field means it
/// exists; the lower-cased output saying `couldn't find manifest` means it
/// does not; anything else is unknown.
pub open spec fn scoop_info_answer(output: Seq<char>) -> Option<bool> {
    if exists|p: int| 0 <= p <= output.len() && #[trigger] name_field_at(output, p) {
        Some(true)
    } else if contains(lowercase(output), "couldn't find manifest"@) {
        Some(false)
    } else {
        None
    }
}

fn skip_ws(v: &Vec<char>, k: usize) -> (r: usize)
    requires
        k <= v@.len(),
    ensures
        r as int == ws_end(v@, k as int),
        k <= r <= v@.len(),
{
    let mut i = k;
    while i < v.len() && char_is_ws(v[i])
        invariant
            k <= i <= v@.len(),
            ws_end(v@, k as int) == ws_end(v@, i as int),
        decreases v.len() - i,
    {
        i = i + 1;
    }
    i
}

fn name_field(v: &Vec<char>, name: &Vec<char>, p: usize) -> (b: bool)
    requires
        p <= v@.len(),
        name@ == "Name"@,
    ensures
        b == name_field_at(v@, p as int),
{
    if !(p == 0 || v[p - 1] == '\n') {
        return false;
    }
    let i = skip_ws(v, p);
    if v.len() < 4 || i > v.len() - 4 {
        return false;
    }
    if !range_eq_ignore_ascii_case(v, i, i + 4, name) {
        return false;
    }
    let j = skip_ws(v, i + 4);
    j < v.len() && v[j] == ':'
}

/// What `scoop info` printed says of a package.
pub fn parse_scoop_info(output: &str) -> (r: Option<bool>)
    ensures
        r == scoop_info_answer(output@),
{
    let v = chars_of(output);
    proof {
        reveal_strlit("Name");
    }
    let name = chars_of("Name");
    let mut p: usize = 0;
    loop
        invariant
            v@ == output@,
            name@ == "Name"@,
            p <= v@.len(),
            forall|k: int| 0 <= k < p ==> !name_field_at(v@, k),
        ensures
            forall|k: int| 0 <= k <= v@.len() ==> !name_field_at(v@, k),
        decreases v.len() - p,
    {
        if name_field(&v, &name, p) {
            return Some(true);
        }
        if p == v.len() {
            break;
        }
        p = p + 1;
    }
    let lower = to_lowercase(output);
    if str_contains(lower.as_str(), "couldn't find manifest") {
        Some(false)
    } else {
        None
    }
}

/// One entry of `scoop status --json`, its fields as far as they are strings.
#[derive(Debug, Clone)]
pub struct ScoopStatusItem {
    pub name: Option<String>,
    pub current_version: Option<String>,
    pub latest_version: Option<String>,
}

pub struct ScoopStatusItemView {
    pub name: Option<Seq<char>>,
    pub current_version: Option<Seq<char>>,
    pub latest_version: Option<Seq<char>>,
}

impl View for ScoopStatusItem {
    type V = ScoopStatusItemView;

    open spec fn view(&self) -> ScoopStatusItemView {
        ScoopStatusItemView {
            name: opt_view(self.name),
            current_version: opt_view(self.current_version),
            latest_version: opt_view(self.latest_version),
        }
    }
}

/// The offered upgrades by name: entries with a non-empty name, current and
/// latest version that differ; a later entry with the same name wins.
pub open spec fn scoop_upgrade_pairs(items: Seq<ScoopStatusItemView>) -> Seq<
    (Seq<char>, (Seq<char>, Seq<char>)),
>
    decreases items.len(),
{
    if items.len() == 0 {
        seq![]
    } else {
        let prev = scoop_upgrade_pairs(items.drop_last());
        let it = items.last();
        match (it.name, it.current_version, it.latest_version) {
            (Some(n), Some(c), Some(l)) => if n.len() > 0 && c.len() > 0 && l.len() > 0 && c != l {
                pairs_insert(prev, n, (c, l))
            } else {
                prev
            },
            _ => prev,
        }
    }
}

/// The upgrades `scoop status --json` offers.
pub fn scoop_upgradable(items: &Vec<ScoopStatusItem>) -> (m: StrMap<UpgradeInfo>)
    ensures
        map_vals(m@, |u: UpgradeInfo| (u.current_version@, u.available_version@)) == scoop_upgrade_pairs(
            items@.map_values(|i: ScoopStatusItem| i@),
        ),
{
    let ghost iv = items@.map_values(|i: ScoopStatusItem| i@);
    let ghost f = |u: UpgradeInfo| (u.current_version@, u.available_version@);
    let mut m: StrMap<UpgradeInfo> = StrMap::new();
    let mut i: usize = 0;
    assert(iv.take(0) == Seq::<ScoopStatusItemView>::empty());
    assert(map_vals(m@, f) =~= Seq::<(Seq<char>, (Seq<char>, Seq<char>))>::empty());
    while i < items.len()
        invariant
            i <= items@.len(),
            iv == items@.map_values(|i: ScoopStatusItem| i@),
            f == (|u: UpgradeInfo| (u.current_version@, u.available_version@)),
            map_vals(m@, f) == scoop_upgrade_pairs(iv.take(i as int)),
        decreases items.len() - i,
    {
        assert(iv.take(i + 1).drop_last() == iv.take(i as int));
        assert(iv.take(i + 1).last() == items@[i as int]@);
        let it = &items[i];
        match (&it.name, &it.current_version, &it.latest_version) {
            (Some(n), Some(c), Some(l)) => {
                if !n.as_str().is_empty() && !c.as_str().is_empty() && !l.as_str().is_empty() && !(*c
                    == *l) {
                    let info = UpgradeInfo::new(c.as_str(), l.as_str());
                    proof {
                        lemma_map_vals(m@, f, n@, info);
                    }
                    m.insert(n.clone(), info);
                }
            },
            _ => {},
        }
        i = i + 1;
    }
    assert(iv.take(items@.len() as int) == iv);
    m
}

/// What `serde_json` reads from a text as an array of Scoop status entries:
/// the entries, each with its `name`, `current_version` and
/// `latest_version` where they are strings; none when the text is not JSON
/// or not an array.
pub uninterp spec fn scoop_status_json(text: Seq<char>) -> Option<Seq<ScoopStatusItemView>>;

/// `serde_json::from_str::<serde_json::Value>`, then the array's items with
/// their three string fields picked out (`Value::as_array`, `Value::get`,
/// `Value::as_str`): the contract claims only that the result is a function
/// of the text, named `scoop_status_json`.
#[verifier::external_body]
fn parse_status_json(text: &str) -> (r: Option<Vec<ScoopStatusItem>>)
    ensures
        match r {
            Some(v) => scoop_status_json(text@) == Some(v@.map_values(|i: ScoopStatusItem| i@)),
            None => scoop_status_json(text@) is None,
        },
{
    let value: serde_json::Value = serde_json::from_str(text).ok()?;
    let text_of = |item: &serde_json::Value, key: &str| item.get(key).and_then(|v| v.as_str()).map(|s| s.to_string());
    Some(value.as_array()?.iter().map(|item| ScoopStatusItem {
        name: text_of(item, "name"),
        current_version: text_of(item, "current_version"),
        latest_version: text_of(item, "latest_version"),
    }).collect())
}

/// The upgrades `scoop status --json` offers, read from its output: none
/// when the output is empty or not a JSON array.
pub open spec fn scoop_status_upgrades(output: Seq<char>) -> Seq<(Seq<char>, (Seq<char>, Seq<char>))> {
    if output.len() == 0 {
        seq![]
    } else {
        match scoop_status_json(output) {
            Some(items) => scoop_upgrade_pairs(items),
            None => seq![],
        }
    }
}

/// The upgrades `scoop status --json` offers, read from its output.
pub fn scoop_upgradable_from_output(output: &str) -> (m: StrMap<UpgradeInfo>)
    ensures
        map_vals(m@, |u: UpgradeInfo| (u.current_version@, u.available_version@)) == scoop_status_upgrades(output@),
{
    let none: StrMap<UpgradeInfo> = StrMap::new();
    assert(map_vals(none@, |u: UpgradeInfo| (u.current_version@, u.available_version@)) =~= Seq::<
        (Seq<char>, (Seq<char>, Seq<char>)),
    >::empty());
    if output.unicode_len() == 0 {
        return none;
    }
    match parse_status_json(output) {
        Some(items) => scoop_upgradable(&items),
        None => none,
    }
}

} // verus!
