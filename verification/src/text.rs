//! Character-level text handling shared by the parsers and command builders.
//!
//! Exec code works on `Vec<char>` copies of the text; every helper states its
//! result over the `Seq<char>` view of the input.
use vstd::prelude::*;

verus! {

/// Unicode `White_Space`, the property that `char::is_whitespace` and
/// `str::trim` use.
pub open spec fn is_ws(c: char) -> bool {
    let u = c as u32;
    ||| (0x09 <= u && u <= 0x0d)
    ||| u == 0x20
    ||| u == 0x85
    ||| u == 0xa0
    ||| u == 0x1680
    ||| (0x2000 <= u && u <= 0x200a)
    ||| u == 0x2028
    ||| u == 0x2029
    ||| u == 0x202f
    ||| u == 0x205f
    ||| u == 0x3000
}

/// ASCII lower-casing of one character; every other character is left as is.
pub open spec fn ascii_lower(c: char) -> char {
    if 'A' <= c && c <= 'Z' {
        ((c as u32) + 32) as char
    } else {
        c
    }
}

/// Two character sequences are equal up to ASCII case.
pub open spec fn eq_ignore_ascii_case(a: Seq<char>, b: Seq<char>) -> bool {
    &&& a.len() == b.len()
    &&& forall|i: int| 0 <= i < a.len() ==> ascii_lower(#[trigger] a[i]) == ascii_lower(b[i])
}

/// `s` begins with `p`.
pub open spec fn starts_with(s: Seq<char>, p: Seq<char>) -> bool {
    p.len() <= s.len() && s.take(p.len() as int) == p
}

/// `s` holds `p` as a contiguous piece.
pub open spec fn contains_at(s: Seq<char>, p: Seq<char>, i: int) -> bool {
    0 <= i && i + p.len() <= s.len() && s.subrange(i, i + p.len()) == p
}

pub open spec fn contains(s: Seq<char>, p: Seq<char>) -> bool {
    exists|i: int| contains_at(s, p, i)
}

/// Leading whitespace removed.
pub open spec fn trim_start(s: Seq<char>) -> Seq<char>
    decreases s.len(),
{
    if s.len() > 0 && is_ws(s[0]) {
        trim_start(s.drop_first())
    } else {
        s
    }
}

/// Trailing whitespace removed.
pub open spec fn trim_end(s: Seq<char>) -> Seq<char>
    decreases s.len(),
{
    if s.len() > 0 && is_ws(s.last()) {
        trim_end(s.drop_last())
    } else {
        s
    }
}

/// Whitespace removed at both ends, as `str::trim` does.
pub open spec fn trim(s: Seq<char>) -> Seq<char> {
    trim_end(trim_start(s))
}

/// A line without its terminating carriage return, if it has one.
pub open spec fn strip_cr(s: Seq<char>) -> Seq<char> {
    if s.len() > 0 && s.last() == '\r' {
        s.drop_last()
    } else {
        s
    }
}

/// The lines of `rest`, the first of which has already begun with `cur`:
/// lines end at `'\n'` (a `'\r'` just before it is dropped), and a final
/// line without terminator counts only when it is not empty.
pub open spec fn lines_from(cur: Seq<char>, rest: Seq<char>) -> Seq<Seq<char>>
    decreases rest.len(),
{
    if rest.len() == 0 {
        if cur.len() == 0 {
            seq![]
        } else {
            seq![cur]
        }
    } else if rest[0] == '\n' {
        seq![strip_cr(cur)] + lines_from(seq![], rest.drop_first())
    } else {
        lines_from(cur.push(rest[0]), rest.drop_first())
    }
}

/// The lines of a text, as `str::lines` yields them.
pub open spec fn lines_of(s: Seq<char>) -> Seq<Seq<char>> {
    lines_from(seq![], s)
}

/// The pieces of `rest` between `'\n'` characters, the first of which has
/// already begun with `cur`; every piece counts, the last one too.
pub open spec fn pieces_from(cur: Seq<char>, rest: Seq<char>) -> Seq<Seq<char>>
    decreases rest.len(),
{
    if rest.len() == 0 {
        seq![cur]
    } else if rest[0] == '\n' {
        seq![cur] + pieces_from(seq![], rest.drop_first())
    } else {
        pieces_from(cur.push(rest[0]), rest.drop_first())
    }
}

/// The pieces of a text between `'\n'` characters, as `str::split('\n')`
/// yields them.
pub open spec fn split_newlines(s: Seq<char>) -> Seq<Seq<char>> {
    pieces_from(seq![], s)
}

/// The maximal runs of non-whitespace characters of `rest`, the first of
/// which has already begun with `cur`.
pub open spec fn tokens_from(cur: Seq<char>, rest: Seq<char>) -> Seq<Seq<char>>
    decreases rest.len(),
{
    if rest.len() == 0 {
        if cur.len() == 0 {
            seq![]
        } else {
            seq![cur]
        }
    } else if is_ws(rest[0]) {
        if cur.len() == 0 {
            tokens_from(seq![], rest.drop_first())
        } else {
            seq![cur] + tokens_from(seq![], rest.drop_first())
        }
    } else {
        tokens_from(cur.push(rest[0]), rest.drop_first())
    }
}

/// The words of a text, as `str::split_whitespace` yields them.
pub open spec fn tokens_of(s: Seq<char>) -> Seq<Seq<char>> {
    tokens_from(seq![], s)
}

/// Whether a character is Unicode whitespace.
pub fn char_is_ws(c: char) -> (r: bool)
    ensures
        r == is_ws(c),
{
    let u = c as u32;
    (0x09 <= u && u <= 0x0d) || u == 0x20 || u == 0x85 || u == 0xa0 || u == 0x1680 || (0x2000
        <= u && u <= 0x200a) || u == 0x2028 || u == 0x2029 || u == 0x202f || u == 0x205f || u
        == 0x3000
}

pub fn char_ascii_lower(c: char) -> (r: char)
    ensures
        r == ascii_lower(c),
{
    if 'A' <= c && c <= 'Z' {
        let b: u8 = (c as u8) + 32;
        b as char
    } else {
        c
    }
}

/// The characters of a string slice, in order.
pub fn chars_of(s: &str) -> (v: Vec<char>)
    ensures
        v@ == s@,
{
    let mut v: Vec<char> = Vec::new();
    for c in it: s.chars()
        invariant
            v@ == it.seq().take(it.index() as int),
    {
        v.push(c);
    }
    v
}

/// Appends one character to a string (`String::push`).
#[verifier::external_body]
pub(crate) fn push_char(s: &mut String, c: char)
    ensures
        final(s)@ == old(s)@.push(c),
{
    s.push(c);
}

/// A string holding `v[lo..hi]`.
pub fn string_of(v: &Vec<char>, lo: usize, hi: usize) -> (s: String)
    requires
        lo <= hi <= v@.len(),
    ensures
        s@ == v@.subrange(lo as int, hi as int),
{
    let mut s = String::new();
    let mut i = lo;
    while i < hi
        invariant
            lo <= i <= hi <= v@.len(),
            s@ == v@.subrange(lo as int, i as int),
        decreases hi - i,
    {
        push_char(&mut s, v[i]);
        assert(v@.subrange(lo as int, i + 1) == v@.subrange(lo as int, i as int).push(v@[i as int]));
        i = i + 1;
    }
    s
}

/// A string holding the given characters.
pub fn string_from_chars(v: &Vec<char>) -> (s: String)
    ensures
        s@ == v@,
{
    assert(v@.subrange(0, v@.len() as int) == v@);
    string_of(v, 0, v.len())
}

/// A copy of a string slice.
pub fn owned(s: &str) -> (r: String)
    ensures
        r@ == s@,
{
    s.to_owned()
}

/// A copy of a string.
pub fn copy_string(s: &String) -> (r: String)
    ensures
        r@ == s@,
{
    s.clone()
}

/// The view of an optional string.
pub open spec fn opt_view(o: Option<String>) -> Option<Seq<char>> {
    match o {
        Some(s) => Some(s@),
        None => None,
    }
}

/// The view of an optional string slice.
pub open spec fn opt_str_view(o: Option<&str>) -> Option<Seq<char>> {
    match o {
        Some(s) => Some(s@),
        None => None,
    }
}

/// A copy of an optional string.
pub fn copy_opt_string(o: &Option<String>) -> (r: Option<String>)
    ensures
        opt_view(r) == opt_view(*o),
{
    match o {
        Some(s) => Some(s.clone()),
        None => None,
    }
}

/// Whether two string slices hold the same characters.
pub fn str_equal(a: &str, b: &str) -> (r: bool)
    ensures
        r == (a@ == b@),
{
    a.to_owned() == b.to_owned()
}

/// Whether two strings hold the same characters.
pub fn string_equal(a: &String, b: &String) -> (r: bool)
    ensures
        r == (a@ == b@),
{
    *a == *b
}

/// Whether two character ranges are equal up to ASCII case.
pub fn range_eq_ignore_ascii_case(a: &Vec<char>, alo: usize, ahi: usize, b: &Vec<char>) -> (r:
    bool)
    requires
        alo <= ahi <= a@.len(),
    ensures
        r == eq_ignore_ascii_case(a@.subrange(alo as int, ahi as int), b@),
{
    if ahi - alo != b.len() {
        return false;
    }
    let mut i: usize = 0;
    while i < b.len()
        invariant
            alo <= ahi <= a@.len(),
            ahi - alo == b@.len(),
            i <= b@.len(),
            forall|j: int|
                0 <= j < i ==> ascii_lower(#[trigger] a@[alo + j]) == ascii_lower(b@[j]),
        decreases b.len() - i,
    {
        if char_ascii_lower(a[alo + i]) != char_ascii_lower(b[i]) {
            assert(a@.subrange(alo as int, ahi as int)[i as int] == a@[alo + i]);
            return false;
        }
        i = i + 1;
    }
    assert forall|j: int| 0 <= j < b@.len() implies ascii_lower(
        #[trigger] a@.subrange(alo as int, ahi as int)[j],
    ) == ascii_lower(b@[j]) by {
        assert(a@.subrange(alo as int, ahi as int)[j] == a@[alo + j]);
    }
    true
}

/// Whether two string slices are equal up to ASCII case.
pub fn str_eq_ignore_ascii_case(a: &str, b: &str) -> (r: bool)
    ensures
        r == eq_ignore_ascii_case(a@, b@),
{
    let av = chars_of(a);
    let bv = chars_of(b);
    assert(av@.subrange(0, av@.len() as int) == av@);
    range_eq_ignore_ascii_case(&av, 0, av.len(), &bv)
}

/// Whether two strings are equal up to ASCII case.
pub fn string_eq_ignore_ascii_case(a: &String, b: &String) -> (r: bool)
    ensures
        r == eq_ignore_ascii_case(a@, b@),
{
    str_eq_ignore_ascii_case(a.as_str(), b.as_str())
}

pub proof fn lemma_trim_start_step(s: Seq<char>, i: int, hi: int)
    requires
        0 <= i < hi <= s.len(),
        is_ws(s[i]),
    ensures
        trim_start(s.subrange(i, hi)) == trim_start(s.subrange(i + 1, hi)),
{
    assert(s.subrange(i, hi).drop_first() == s.subrange(i + 1, hi));
}

pub proof fn lemma_trim_end_step(s: Seq<char>, lo: int, j: int)
    requires
        0 <= lo < j <= s.len(),
        is_ws(s[j - 1]),
    ensures
        trim_end(s.subrange(lo, j)) == trim_end(s.subrange(lo, j - 1)),
{
    assert(s.subrange(lo, j).drop_last() == s.subrange(lo, j - 1));
}

/// The bounds of `v[lo..hi]` with whitespace removed at both ends.
pub fn trim_bounds(v: &Vec<char>, lo: usize, hi: usize) -> (r: (usize, usize))
    requires
        lo <= hi <= v@.len(),
    ensures
        lo <= r.0 <= r.1 <= hi,
        v@.subrange(r.0 as int, r.1 as int) == trim(v@.subrange(lo as int, hi as int)),
{
    let mut i = lo;
    while i < hi && char_is_ws(v[i])
        invariant
            lo <= i <= hi <= v@.len(),
            trim_start(v@.subrange(lo as int, hi as int)) == trim_start(
                v@.subrange(i as int, hi as int),
            ),
        decreases hi - i,
    {
        proof {
            lemma_trim_start_step(v@, i as int, hi as int);
        }
        i = i + 1;
    }
    proof {
        if i < hi {
            assert(v@.subrange(i as int, hi as int)[0] == v@[i as int]);
        }
    }
    assert(trim_start(v@.subrange(lo as int, hi as int)) == v@.subrange(i as int, hi as int));
    let mut j = hi;
    while j > i && char_is_ws(v[j - 1])
        invariant
            lo <= i <= j <= hi <= v@.len(),
            trim_end(v@.subrange(i as int, hi as int)) == trim_end(
                v@.subrange(i as int, j as int),
            ),
        decreases j - i,
    {
        proof {
            lemma_trim_end_step(v@, i as int, j as int);
        }
        j = j - 1;
    }
    proof {
        if j > i {
            assert(v@.subrange(i as int, j as int).last() == v@[j - 1]);
        }
    }
    (i, j)
}

/// `s` with whitespace removed at both ends, as a string.
pub fn trim_str(s: &str) -> (r: String)
    ensures
        r@ == trim(s@),
{
    let v = chars_of(s);
    assert(v@.subrange(0, v@.len() as int) == v@);
    let (a, b) = trim_bounds(&v, 0, v.len());
    string_of(&v, a, b)
}

/// Whether `v[lo..hi]` begins with `p`.
pub fn range_starts_with(v: &Vec<char>, lo: usize, hi: usize, p: &Vec<char>) -> (r: bool)
    requires
        lo <= hi <= v@.len(),
    ensures
        r == starts_with(v@.subrange(lo as int, hi as int), p@),
{
    if p.len() > hi - lo {
        return false;
    }
    let mut i: usize = 0;
    while i < p.len()
        invariant
            lo <= hi <= v@.len(),
            p@.len() <= hi - lo,
            i <= p@.len(),
            forall|j: int| 0 <= j < i ==> v@[lo + j] == #[trigger] p@[j],
        decreases p.len() - i,
    {
        if v[lo + i] != p[i] {
            assert(v@.subrange(lo as int, hi as int).take(p@.len() as int)[i as int] == v@[lo
                + i]);
            return false;
        }
        i = i + 1;
    }
    assert(v@.subrange(lo as int, hi as int).take(p@.len() as int) =~= p@);
    true
}

/// Whether `v[lo..hi]` holds `p` somewhere.
pub fn range_contains(v: &Vec<char>, lo: usize, hi: usize, p: &Vec<char>) -> (r: bool)
    requires
        lo <= hi <= v@.len(),
    ensures
        r == contains(v@.subrange(lo as int, hi as int), p@),
{
    let ghost s = v@.subrange(lo as int, hi as int);
    if p.len() > hi - lo {
        assert forall|i: int| !contains_at(s, p@, i) by {}
        return false;
    }
    let last = hi - p.len();
    let mut k = lo;
    loop
        invariant
            lo <= k <= last,
            last + p@.len() == hi,
            hi <= v@.len(),
            s == v@.subrange(lo as int, hi as int),
            forall|i: int| 0 <= i < k - lo ==> !contains_at(s, p@, i),
        decreases last - k,
    {
        assert(v@.subrange(k as int, hi as int).take(p@.len() as int) == s.subrange(
            k - lo,
            k - lo + p@.len(),
        ));
        if range_starts_with(v, k, hi, p) {
            assert(contains_at(s, p@, k - lo));
            return true;
        }
        if k == last {
            assert forall|i: int| !contains_at(s, p@, i) by {}
            return false;
        }
        k = k + 1;
    }
}

/// Whether a string slice begins with a prefix.
pub fn str_starts_with(s: &str, p: &str) -> (r: bool)
    ensures
        r == starts_with(s@, p@),
{
    let v = chars_of(s);
    let pv = chars_of(p);
    assert(v@.subrange(0, v@.len() as int) == v@);
    range_starts_with(&v, 0, v.len(), &pv)
}

/// Whether a string slice holds a piece.
pub fn str_contains(s: &str, p: &str) -> (r: bool)
    ensures
        r == contains(s@, p@),
{
    let v = chars_of(s);
    let pv = chars_of(p);
    assert(v@.subrange(0, v@.len() as int) == v@);
    range_contains(&v, 0, v.len(), &pv)
}

/// The lines of a text, as `(start, end)` bounds into its characters.
pub fn line_bounds(v: &Vec<char>) -> (r: Vec<(usize, usize)>)
    ensures
        forall|k: int| 0 <= k < r@.len() ==> #[trigger] r@[k].0 <= r@[k].1 <= v@.len(),
        r@.map_values(|b: (usize, usize)| v@.subrange(b.0 as int, b.1 as int)) == lines_of(v@),
{
    let mut r: Vec<(usize, usize)> = Vec::new();
    let mut start: usize = 0;
    let mut i: usize = 0;
    assert(v@.skip(0) == v@);
    assert(v@.subrange(0, 0) == Seq::<char>::empty());
    assert(r@.map_values(|b: (usize, usize)| v@.subrange(b.0 as int, b.1 as int)) == Seq::<Seq<char>>::empty());
    while i < v.len()
        invariant
            start <= i <= v@.len(),
            forall|k: int| 0 <= k < r@.len() ==> #[trigger] r@[k].0 <= r@[k].1 <= v@.len(),
            lines_of(v@) == r@.map_values(|b: (usize, usize)| v@.subrange(b.0 as int, b.1 as int))
                + lines_from(v@.subrange(start as int, i as int), v@.skip(i as int)),
            forall|k: int| start <= k < i ==> v@[k] != '\n',
        decreases v.len() - i,
    {
        let ghost cur = v@.subrange(start as int, i as int);
        let ghost old_r = r@;
        assert(v@.skip(i as int)[0] == v@[i as int]);
        assert(v@.skip(i as int).drop_first() == v@.skip(i + 1));
        if v[i] == '\n' {
            let end = if i > start && v[i - 1] == '\r' {
                i - 1
            } else {
                i
            };
            proof {
                if i > start {
                    assert(cur.last() == v@[i - 1]);
                }
                if end < i {
                    assert(cur.drop_last() == v@.subrange(start as int, end as int));
                }
                assert(strip_cr(cur) == v@.subrange(start as int, end as int));
            }
            r.push((start, end));
            assert forall|k: int| 0 <= k < r@.len() implies #[trigger] r@[k].0 <= r@[k].1 <= v@.len() by {
                if k < old_r.len() {
                    assert(r@[k] == old_r[k]);
                }
            }
            assert(r@.map_values(|b: (usize, usize)| v@.subrange(b.0 as int, b.1 as int)) == old_r.map_values(
                |b: (usize, usize)| v@.subrange(b.0 as int, b.1 as int),
            ).push(v@.subrange(start as int, end as int)));
            i = i + 1;
            start = i;
            assert(v@.subrange(start as int, i as int) == Seq::<char>::empty());
        } else {
            assert(cur.push(v@[i as int]) == v@.subrange(start as int, i + 1));
            i = i + 1;
        }
    }
    let ghost old_r = r@;
    if start < i {
        r.push((start, i));
        assert(r@.map_values(|b: (usize, usize)| v@.subrange(b.0 as int, b.1 as int)) == old_r.map_values(
            |b: (usize, usize)| v@.subrange(b.0 as int, b.1 as int),
        ).push(v@.subrange(start as int, i as int)));
    }
    r
}

/// What `str::to_lowercase` gives for a text (full Unicode lower-casing).
pub uninterp spec fn lowercase(s: Seq<char>) -> Seq<char>;

/// `str::to_lowercase`: the contract claims only that the result is a
/// function of the text's characters.
#[verifier::external_body]
pub(crate) fn to_lowercase(s: &str) -> (r: String)
    ensures
        r@ == lowercase(s@),
{
    s.to_lowercase()
}

/// The leading run of non-whitespace characters.
pub open spec fn leading_word(s: Seq<char>) -> Seq<char>
    decreases s.len(),
{
    if s.len() > 0 && !is_ws(s[0]) {
        seq![s[0]] + leading_word(s.drop_first())
    } else {
        seq![]
    }
}

/// The end of the run of non-whitespace characters that starts at `lo`.
pub fn word_end(v: &Vec<char>, lo: usize, hi: usize) -> (e: usize)
    requires
        lo <= hi <= v@.len(),
    ensures
        lo <= e <= hi,
        v@.subrange(lo as int, e as int) == leading_word(v@.subrange(lo as int, hi as int)),
{
    let mut e = lo;
    while e < hi && !char_is_ws(v[e])
        invariant
            lo <= e <= hi <= v@.len(),
            forall|k: int| lo <= k < e ==> !is_ws(#[trigger] v@[k]),
            leading_word(v@.subrange(lo as int, hi as int)) == v@.subrange(lo as int, e as int)
                + leading_word(v@.subrange(e as int, hi as int)),
        decreases hi - e,
    {
        let ghost rest = v@.subrange(e as int, hi as int);
        assert(rest[0] == v@[e as int]);
        assert(rest.drop_first() == v@.subrange(e + 1, hi as int));
        assert(v@.subrange(lo as int, e as int) + seq![v@[e as int]] == v@.subrange(lo as int, e + 1));
        assert(leading_word(rest) == seq![v@[e as int]] + leading_word(v@.subrange(e + 1, hi as int)));
        assert(v@.subrange(lo as int, e as int) + (seq![v@[e as int]] + leading_word(v@.subrange(e + 1, hi as int)))
            == v@.subrange(lo as int, e + 1) + leading_word(v@.subrange(e + 1, hi as int)));
        e = e + 1;
    }
    proof {
        let rest = v@.subrange(e as int, hi as int);
        if e < hi {
            assert(rest[0] == v@[e as int]);
        }
        assert(leading_word(rest) == Seq::<char>::empty());
        assert(v@.subrange(lo as int, e as int) + Seq::<char>::empty() == v@.subrange(lo as int, e as int));
    }
    e
}

/// The words of a text, as `(start, end)` bounds into its characters.
pub fn token_bounds(v: &Vec<char>) -> (r: Vec<(usize, usize)>)
    ensures
        forall|k: int| 0 <= k < r@.len() ==> #[trigger] r@[k].0 <= r@[k].1 <= v@.len(),
        r@.map_values(|b: (usize, usize)| v@.subrange(b.0 as int, b.1 as int)) == tokens_of(v@),
{
    let mut r: Vec<(usize, usize)> = Vec::new();
    let mut start: usize = 0;
    let mut i: usize = 0;
    assert(v@.skip(0) == v@);
    assert(v@.subrange(0, 0) == Seq::<char>::empty());
    assert(r@.map_values(|b: (usize, usize)| v@.subrange(b.0 as int, b.1 as int)) == Seq::<Seq<char>>::empty());
    while i < v.len()
        invariant
            start <= i <= v@.len(),
            forall|k: int| 0 <= k < r@.len() ==> #[trigger] r@[k].0 <= r@[k].1 <= v@.len(),
            tokens_of(v@) == r@.map_values(|b: (usize, usize)| v@.subrange(b.0 as int, b.1 as int))
                + tokens_from(v@.subrange(start as int, i as int), v@.skip(i as int)),
        decreases v.len() - i,
    {
        let ghost cur = v@.subrange(start as int, i as int);
        let ghost old_r = r@;
        assert(v@.skip(i as int)[0] == v@[i as int]);
        assert(v@.skip(i as int).drop_first() == v@.skip(i + 1));
        if char_is_ws(v[i]) {
            if start < i {
                r.push((start, i));
                assert forall|k: int| 0 <= k < r@.len() implies #[trigger] r@[k].0 <= r@[k].1 <= v@.len() by {
                    if k < old_r.len() {
                        assert(r@[k] == old_r[k]);
                    }
                }
                assert(r@.map_values(|b: (usize, usize)| v@.subrange(b.0 as int, b.1 as int)) == old_r.map_values(
                    |b: (usize, usize)| v@.subrange(b.0 as int, b.1 as int),
                ).push(cur));
            }
            i = i + 1;
            start = i;
            assert(v@.subrange(start as int, i as int) == Seq::<char>::empty());
        } else {
            assert(cur.push(v@[i as int]) == v@.subrange(start as int, i + 1));
            i = i + 1;
        }
    }
    let ghost old_r = r@;
    if start < i {
        r.push((start, i));
        assert(r@.map_values(|b: (usize, usize)| v@.subrange(b.0 as int, b.1 as int)) == old_r.map_values(
            |b: (usize, usize)| v@.subrange(b.0 as int, b.1 as int),
        ).push(v@.subrange(start as int, i as int)));
    }
    r
}


/// The decimal digits of a natural number, most significant first.
pub open spec fn digits_of(n: nat) -> Seq<char>
    decreases n,
{
    if n < 10 {
        seq![(('0' as nat) + n) as char]
    } else {
        digits_of(n / 10).push((('0' as nat) + n % 10) as char)
    }
}

/// An integer written in decimal, with a leading `-` when negative.
pub open spec fn decimal_of(i: int) -> Seq<char> {
    if i < 0 {
        seq!['-'] + digits_of((-i) as nat)
    } else {
        digits_of(i as nat)
    }
}

/// Appends the decimal digits of `n`.
pub fn push_digits(s: &mut String, n: u64)
    ensures
        final(s)@ == old(s)@ + digits_of(n as nat),
    decreases n,
{
    if n >= 10 {
        push_digits(s, n / 10);
    }
    let d: u8 = (n % 10) as u8;
    push_char(s, (48u8 + d) as char);
}

/// A count written in decimal.
pub fn usize_decimal(n: usize) -> (s: String)
    ensures
        s@ == decimal_of(n as int),
{
    let mut s = String::new();
    push_digits(&mut s, n as u64);
    s
}

/// A signed integer written in decimal.
pub fn i64_decimal(i: i64) -> (s: String)
    ensures
        s@ == decimal_of(i as int),
{
    let mut s = String::new();
    if i < 0 {
        push_char(&mut s, '-');
        let k: i64 = -(i + 1);
        let m: u64 = (k as u64) + 1;
        assert(m == -(i as int));
        push_digits(&mut s, m);
    } else {
        push_digits(&mut s, i as u64);
    }
    s
}

} // verus!
