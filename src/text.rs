//! Character-level text helpers shared by the feed parsers: conversion
//! between strings and character vectors, substring search, splitting on a
//! separator, line breaking and the removal of markup tags.
use vstd::prelude::*;

verus! {

/// Relies on `str::chars`, collected into a vector: the characters of the
/// string, in order.
#[verifier::external_body]
pub fn chars_of(s: &str) -> (r: Vec<char>)
    ensures
        r@ == s@,
{
    s.chars().collect()
}

/// Relies on `String`'s `FromIterator<&char>`: the string made of the given
/// characters, in order.
#[verifier::external_body]
pub fn string_of(cs: &[char]) -> (r: String)
    ensures
        r@ == cs@,
{
    cs.iter().collect()
}

/// `pat` occurs in `s` starting at index `i`.
pub open spec fn matches_at(s: Seq<char>, pat: Seq<char>, i: int) -> bool {
    0 <= i && i + pat.len() <= s.len() && s.subrange(i, i + pat.len()) == pat
}

/// Whether `pat` occurs in `s` starting at `i`.
pub fn is_match_at(s: &[char], pat: &[char], i: usize) -> (r: bool)
    ensures
        r == matches_at(s@, pat@, i as int),
{
    if i > s.len() || pat.len() > s.len() - i {
        return false;
    }
    let n = s.len();
    let mut k: usize = 0;
    while k < pat.len()
        invariant
            n == s@.len(),
            i + pat@.len() <= n,
            0 <= k <= pat@.len(),
            forall|j: int| 0 <= j < k ==> s@[i + j] == pat@[j],
        decreases pat@.len() - k,
    {
        if s[i + k] != pat[k] {
            assert(s@.subrange(i as int, i + pat@.len())[k as int] != pat@[k as int]);
            return false;
        }
        k = k + 1;
    }
    assert(s@.subrange(i as int, i + pat@.len()) =~= pat@);
    true
}

/// The first index at or after `from` where `pat` occurs in `s`, or -1.
pub open spec fn find_spec(s: Seq<char>, pat: Seq<char>, from: int) -> int
    decreases s.len() + 1 - from,
{
    if from < 0 || from > s.len() {
        -1
    } else if matches_at(s, pat, from) {
        from
    } else {
        find_spec(s, pat, from + 1)
    }
}

proof fn lemma_find_spec_found(s: Seq<char>, pat: Seq<char>, from: int, i: int)
    requires
        0 <= from <= i,
        matches_at(s, pat, i),
        forall|j: int| from <= j < i ==> !matches_at(s, pat, j),
    ensures
        find_spec(s, pat, from) == i,
    decreases i - from,
{
    if from < i {
        lemma_find_spec_found(s, pat, from + 1, i);
    }
}

proof fn lemma_find_spec_none(s: Seq<char>, pat: Seq<char>, from: int)
    requires
        0 <= from,
        forall|j: int| from <= j ==> !matches_at(s, pat, j),
    ensures
        find_spec(s, pat, from) == -1,
    decreases s.len() + 1 - from,
{
    if from <= s.len() {
        lemma_find_spec_none(s, pat, from + 1);
    }
}

/// A match found by [`find_spec`] lies at or after `from`.
pub proof fn lemma_find_spec_bounds(s: Seq<char>, pat: Seq<char>, from: int)
    ensures
        find_spec(s, pat, from) == -1 || (from <= find_spec(s, pat, from) && matches_at(
            s,
            pat,
            find_spec(s, pat, from),
        )),
    decreases s.len() + 1 - from,
{
    if 0 <= from <= s.len() && !matches_at(s, pat, from) {
        lemma_find_spec_bounds(s, pat, from + 1);
    }
}

/// The last index `i` with `i + pat.len() <= end` where `pat` occurs in
/// `s`, or -1.
pub open spec fn rfind_spec(s: Seq<char>, pat: Seq<char>, end: int) -> int {
    rfind_from_spec(s, pat, end - pat.len())
}

/// The last index at or before `i` where `pat` occurs in `s`, or -1.
pub open spec fn rfind_from_spec(s: Seq<char>, pat: Seq<char>, i: int) -> int
    decreases i + 1,
{
    if i < 0 {
        -1
    } else if matches_at(s, pat, i) {
        i
    } else {
        rfind_from_spec(s, pat, i - 1)
    }
}

proof fn lemma_rfind_found(s: Seq<char>, pat: Seq<char>, top: int, i: int)
    requires
        0 <= i <= top,
        matches_at(s, pat, i),
        forall|j: int| i < j <= top ==> !matches_at(s, pat, j),
    ensures
        rfind_from_spec(s, pat, top) == i,
    decreases top - i,
{
    if i < top {
        lemma_rfind_found(s, pat, top - 1, i);
    }
}

proof fn lemma_rfind_none(s: Seq<char>, pat: Seq<char>, top: int)
    requires
        forall|j: int| 0 <= j <= top ==> !matches_at(s, pat, j),
    ensures
        rfind_from_spec(s, pat, top) == -1,
    decreases top + 1,
{
    if top >= 0 {
        lemma_rfind_none(s, pat, top - 1);
    }
}

/// The first index at or after `from` that holds `c`, or -1.
pub open spec fn find_char_spec(s: Seq<char>, c: char, from: int) -> int
    decreases s.len() - from,
{
    if from < 0 || from >= s.len() {
        -1
    } else if s[from] == c {
        from
    } else {
        find_char_spec(s, c, from + 1)
    }
}

proof fn lemma_find_char_found(s: Seq<char>, c: char, from: int, i: int)
    requires
        0 <= from <= i < s.len(),
        s[i] == c,
        forall|j: int| from <= j < i ==> s[j] != c,
    ensures
        find_char_spec(s, c, from) == i,
    decreases i - from,
{
    if from < i {
        lemma_find_char_found(s, c, from + 1, i);
    }
}

proof fn lemma_find_char_none(s: Seq<char>, c: char, from: int)
    requires
        0 <= from,
        forall|j: int| from <= j < s.len() ==> s[j] != c,
    ensures
        find_char_spec(s, c, from) == -1,
    decreases s.len() - from,
{
    if from < s.len() {
        lemma_find_char_none(s, c, from + 1);
    }
}

/// A match found by [`find_char_spec`] lies at or after `from`.
pub proof fn lemma_find_char_bounds(s: Seq<char>, c: char, from: int)
    ensures
        find_char_spec(s, c, from) == -1 || (from <= find_char_spec(s, c, from) < s.len()
            && s[find_char_spec(s, c, from)] == c),
    decreases s.len() - from,
{
    if 0 <= from < s.len() && s[from] != c {
        lemma_find_char_bounds(s, c, from + 1);
    }
}

/// The first index at or after `from` where `pat` occurs in `s`.
pub fn find_from(s: &[char], pat: &[char], from: usize) -> (r: Option<usize>)
    ensures
        match r {
            Some(i) => from <= i && matches_at(s@, pat@, i as int) && forall|j: int|
                from <= j < i ==> !matches_at(s@, pat@, j),
            None => forall|j: int| from <= j ==> !matches_at(s@, pat@, j),
        },
        match r {
            Some(i) => find_spec(s@, pat@, from as int) == i,
            None => find_spec(s@, pat@, from as int) == -1,
        },
{
    let n = s.len();
    if from > n {
        proof {
            lemma_find_spec_none(s@, pat@, from as int);
        }
        return None;
    }
    let mut i: usize = from;
    loop
        invariant
            n == s@.len(),
            from <= i <= n,
            forall|j: int| from <= j < i ==> !matches_at(s@, pat@, j),
        decreases n - i,
    {
        if is_match_at(s, pat, i) {
            proof {
                lemma_find_spec_found(s@, pat@, from as int, i as int);
            }
            return Some(i);
        }
        if i == n {
            proof {
                lemma_find_spec_none(s@, pat@, from as int);
            }
            return None;
        }
        i = i + 1;
    }
}

/// The last index `i` with `i + pat.len() <= end` where `pat` occurs in `s`.
pub fn rfind_before(s: &[char], pat: &[char], end: usize) -> (r: Option<usize>)
    requires
        end <= s@.len(),
    ensures
        match r {
            Some(i) => i + pat@.len() <= end && matches_at(s@, pat@, i as int) && forall|j: int|
                i < j && j + pat@.len() <= end ==> !matches_at(s@, pat@, j),
            None => forall|j: int| 0 <= j && j + pat@.len() <= end ==> !matches_at(s@, pat@, j),
        },
        match r {
            Some(i) => rfind_spec(s@, pat@, end as int) == i,
            None => rfind_spec(s@, pat@, end as int) == -1,
        },
{
    if pat.len() > end {
        proof {
            lemma_rfind_none(s@, pat@, end - pat@.len());
        }
        return None;
    }
    let mut i: usize = end - pat.len();
    loop
        invariant
            i + pat@.len() <= end,
            end <= s@.len(),
            forall|j: int| i < j && j + pat@.len() <= end ==> !matches_at(s@, pat@, j),
        decreases i,
    {
        if is_match_at(s, pat, i) {
            proof {
                lemma_rfind_found(s@, pat@, end - pat@.len(), i as int);
            }
            return Some(i);
        }
        if i == 0 {
            proof {
                lemma_rfind_none(s@, pat@, end - pat@.len());
            }
            return None;
        }
        i = i - 1;
    }
}

/// The first index at or after `from` that holds `c`.
pub fn find_char_from(s: &[char], c: char, from: usize) -> (r: Option<usize>)
    ensures
        match r {
            Some(i) => from <= i < s@.len() && s@[i as int] == c && forall|j: int|
                from <= j < i ==> s@[j] != c,
            None => forall|j: int| from <= j < s@.len() ==> s@[j] != c,
        },
        match r {
            Some(i) => find_char_spec(s@, c, from as int) == i,
            None => find_char_spec(s@, c, from as int) == -1,
        },
{
    let mut i: usize = from;
    while i < s.len()
        invariant
            from <= i,
            forall|j: int| from <= j < i ==> s@[j] != c,
        decreases s@.len() - i,
    {
        if s[i] == c {
            proof {
                lemma_find_char_found(s@, c, from as int, i as int);
            }
            return Some(i);
        }
        i = i + 1;
    }
    proof {
        lemma_find_char_none(s@, c, from as int);
    }
    None
}

/// The characters of `s` from `begin` up to `end`.
pub fn slice_of(s: &[char], begin: usize, end: usize) -> (r: Vec<char>)
    requires
        begin <= end <= s@.len(),
    ensures
        r@ == s@.subrange(begin as int, end as int),
{
    let mut r: Vec<char> = Vec::new();
    let mut i: usize = begin;
    while i < end
        invariant
            begin <= i <= end <= s@.len(),
            r@ == s@.subrange(begin as int, i as int),
        decreases end - i,
    {
        r.push(s[i]);
        i = i + 1;
        assert(r@ =~= s@.subrange(begin as int, i as int));
    }
    r
}

/// The fields of `s` between occurrences of `sep`: one more field than
/// there are separators, empty fields kept.
pub open spec fn split_spec(s: Seq<char>, sep: char) -> Seq<Seq<char>>
    decreases s.len(),
{
    if s.len() == 0 {
        seq![Seq::empty()]
    } else {
        let prev = split_spec(s.drop_last(), sep);
        if s.last() == sep {
            prev.push(Seq::empty())
        } else {
            prev.update(prev.len() - 1, prev.last().push(s.last()))
        }
    }
}

proof fn lemma_split_nonempty(s: Seq<char>, sep: char)
    ensures
        split_spec(s, sep).len() >= 1,
    decreases s.len(),
{
    if s.len() > 0 {
        lemma_split_nonempty(s.drop_last(), sep);
    }
}

/// Splitting gives at least one field.
pub proof fn lemma_split_len(s: Seq<char>, sep: char)
    ensures
        split_spec(s, sep).len() >= 1,
{
    lemma_split_nonempty(s, sep);
}

/// Splits `s` on every occurrence of `sep`.
pub fn split_on(s: &[char], sep: char) -> (r: Vec<Vec<char>>)
    ensures
        r@.len() == split_spec(s@, sep).len(),
        forall|i: int| 0 <= i < r@.len() ==> #[trigger] r@[i]@ == split_spec(s@, sep)[i],
{
    let mut done: Vec<Vec<char>> = Vec::new();
    let mut cur: Vec<char> = Vec::new();
    let mut i: usize = 0;
    assert(s@.subrange(0, 0) =~= Seq::<char>::empty());
    while i < s.len()
        invariant
            0 <= i <= s@.len(),
            done@.len() + 1 == split_spec(s@.subrange(0, i as int), sep).len(),
            forall|k: int|
                0 <= k < done@.len() ==> #[trigger] done@[k]@ == split_spec(
                    s@.subrange(0, i as int),
                    sep,
                )[k],
            cur@ == split_spec(s@.subrange(0, i as int), sep).last(),
        decreases s@.len() - i,
    {
        let ghost pre = s@.subrange(0, i as int);
        proof {
            lemma_split_nonempty(pre, sep);
        }
        let c = s[i];
        i = i + 1;
        assert(s@.subrange(0, i as int).drop_last() =~= pre);
        if c == sep {
            done.push(cur);
            cur = Vec::new();
        } else {
            cur.push(c);
        }
    }
    assert(s@.subrange(0, s@.len() as int) =~= s@);
    done.push(cur);
    done
}

/// `s` without the tags in it: each `<` drops everything up to and including
/// the next `>` (or to the end, where none follows). `in_tag` says whether a
/// `<` before `s` is still open.
pub open spec fn strip_tags_spec(s: Seq<char>, in_tag: bool) -> Seq<char>
    decreases s.len(),
{
    if s.len() == 0 {
        Seq::empty()
    } else if in_tag {
        strip_tags_spec(s.drop_first(), s[0] != '>')
    } else if s[0] == '<' {
        strip_tags_spec(s.drop_first(), true)
    } else {
        seq![s[0]] + strip_tags_spec(s.drop_first(), false)
    }
}

/// The text of an HTML fragment with its tags removed.
pub fn strip_tags(html: &[char]) -> (r: Vec<char>)
    ensures
        r@ == strip_tags_spec(html@, false),
{
    let mut out: Vec<char> = Vec::new();
    let mut in_tag = false;
    let mut i: usize = 0;
    let n = html.len();
    assert(html@.subrange(0, n as int) =~= html@);
    while i < n
        invariant
            n == html@.len(),
            0 <= i <= n,
            out@ + strip_tags_spec(html@.subrange(i as int, n as int), in_tag)
                == strip_tags_spec(html@, false),
        decreases n - i,
    {
        let ghost rest = html@.subrange(i as int, n as int);
        assert(rest.drop_first() =~= html@.subrange(i + 1, n as int));
        let c = html[i];
        if in_tag {
            in_tag = c != '>';
        } else if c == '<' {
            in_tag = true;
        } else {
            let ghost before = out@;
            out.push(c);
            assert(before + (seq![c] + strip_tags_spec(rest.drop_first(), false)) =~= out@
                + strip_tags_spec(rest.drop_first(), false));
        }
        i = i + 1;
    }
    assert(out@ + Seq::<char>::empty() =~= out@);
    out
}

/// The text of an HTML fragment with its tags removed: each `<` drops
/// everything up to and including the next `>`.
pub fn extract_text_from_html(html: &str) -> (r: String)
    ensures
        r@ == strip_tags_spec(html@, false),
{
    let cs = chars_of(html);
    let out = strip_tags(cs.as_slice());
    string_of(out.as_slice())
}

/// A line without its trailing carriage return, if any.
pub open spec fn strip_cr_spec(l: Seq<char>) -> Seq<char> {
    if l.len() > 0 && l.last() == '\r' {
        l.drop_last()
    } else {
        l
    }
}

/// The lines of `s`: the pieces between line feeds, each without a trailing
/// carriage return; a final line feed does not start one more line.
pub open spec fn lines_spec(s: Seq<char>) -> Seq<Seq<char>> {
    let parts = split_spec(s, '\n');
    let kept = if parts.last().len() == 0 {
        parts.drop_last()
    } else {
        parts
    };
    kept.map_values(|l: Seq<char>| strip_cr_spec(l))
}

/// Breaks `s` into lines (see [`lines_spec`]).
pub fn lines_of(s: &[char]) -> (r: Vec<Vec<char>>)
    ensures
        r@.len() == lines_spec(s@).len(),
        forall|i: int| 0 <= i < r@.len() ==> #[trigger] r@[i]@ == lines_spec(s@)[i],
{
    let parts = split_on(s, '\n');
    proof {
        lemma_split_nonempty(s@, '\n');
    }
    let ghost sp = split_spec(s@, '\n');
    let mut count = parts.len();
    if parts[count - 1].len() == 0 {
        count = count - 1;
    }
    let ghost kept = if sp.last().len() == 0 {
        sp.drop_last()
    } else {
        sp
    };
    assert(kept.len() == count);
    let mut out: Vec<Vec<char>> = Vec::new();
    let mut i: usize = 0;
    while i < count
        invariant
            count == kept.len() <= parts@.len(),
            parts@.len() == sp.len(),
            forall|k: int| 0 <= k < parts@.len() ==> #[trigger] parts@[k]@ == sp[k],
            forall|k: int| 0 <= k < kept.len() ==> #[trigger] kept[k] == sp[k],
            lines_spec(s@) == kept.map_values(|l: Seq<char>| strip_cr_spec(l)),
            0 <= i <= count,
            out@.len() == i,
            forall|k: int| 0 <= k < i ==> #[trigger] out@[k]@ == strip_cr_spec(kept[k]),
        decreases count - i,
    {
        let line = &parts[i];
        let n = line.len();
        let end: usize = if n > 0 && line[n - 1] == '\r' {
            n - 1
        } else {
            n
        };
        let piece = slice_of(line.as_slice(), 0, end);
        proof {
            if n > 0 && line@[n - 1] == '\r' {
                assert(piece@ =~= line@.drop_last());
            } else {
                assert(piece@ =~= line@);
            }
        }
        out.push(piece);
        i = i + 1;
    }
    out
}

/// Whether two character sequences are equal.
pub fn chars_eq(a: &[char], b: &[char]) -> (r: bool)
    ensures
        r == (a@ == b@),
{
    if a.len() != b.len() {
        return false;
    }
    let r = is_match_at(a, b, 0);
    assert(a@.subrange(0, b@.len() as int) =~= a@);
    r
}

} // verus!
