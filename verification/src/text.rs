//! Character-level text operations: whitespace trimming, substring search and
//! splitting on a separator.

use itertools::Itertools;
use vstd::prelude::*;
use vstd::slice::slice_subrange;

verus! {

/// The characters that count as whitespace when trimming: the Unicode
/// `White_Space` code points.
pub open spec fn is_whitespace(c: char) -> bool {
    ||| c == ' '
    ||| ('\u{9}' <= c && c <= '\u{d}')
    ||| c == '\u{85}'
    ||| c == '\u{a0}'
    ||| c == '\u{1680}'
    ||| ('\u{2000}' <= c && c <= '\u{200a}')
    ||| c == '\u{2028}'
    ||| c == '\u{2029}'
    ||| c == '\u{202f}'
    ||| c == '\u{205f}'
    ||| c == '\u{3000}'
}

/// `s` without its leading whitespace.
pub open spec fn trimmed_start(s: Seq<char>) -> Seq<char>
    decreases s.len(),
{
    if s.len() > 0 && is_whitespace(s.first()) {
        trimmed_start(s.drop_first())
    } else {
        s
    }
}

/// `s` without its trailing whitespace.
pub open spec fn trimmed_end(s: Seq<char>) -> Seq<char>
    decreases s.len(),
{
    if s.len() > 0 && is_whitespace(s.last()) {
        trimmed_end(s.drop_last())
    } else {
        s
    }
}

/// `s` without its leading and trailing whitespace.
pub open spec fn trimmed(s: Seq<char>) -> Seq<char> {
    trimmed_end(trimmed_start(s))
}

/// Whether `pat` occurs in `s` starting at index `i`.
pub open spec fn occurs_at(s: Seq<char>, pat: Seq<char>, i: int) -> bool {
    0 <= i && i + pat.len() <= s.len() && s.subrange(i, i + pat.len()) == pat
}

/// Whether `i` is the leftmost index at which `pat` occurs in `s`.
pub open spec fn is_first_occurrence(s: Seq<char>, pat: Seq<char>, i: int) -> bool {
    occurs_at(s, pat, i) && forall|j: int| 0 <= j < i ==> !occurs_at(s, pat, j)
}

/// The leftmost index at which `pat` occurs in `s`, if it occurs at all.
pub open spec fn first_occurrence(s: Seq<char>, pat: Seq<char>) -> Option<int> {
    if exists|i: int| is_first_occurrence(s, pat, i) {
        Some(choose|i: int| is_first_occurrence(s, pat, i))
    } else {
        None
    }
}

/// The pieces of `s` between the occurrences of `sep`, found from left to
/// right without overlap. There is always at least one piece; a separator at
/// the very start or end, or two in a row, give an empty piece. An empty
/// separator splits nothing.
pub open spec fn split_by(s: Seq<char>, sep: Seq<char>) -> Seq<Seq<char>>
    decreases s.len(),
{
    if sep.len() == 0 {
        seq![s]
    } else {
        match first_occurrence(s, sep) {
            Some(i) => seq![s.take(i)] + split_by(s.skip(i + sep.len()), sep),
            None => seq![s],
        }
    }
}

/// The parts of `s` before and after the leftmost occurrence of `sep`.
pub open spec fn split_once_by(s: Seq<char>, sep: Seq<char>) -> Option<(Seq<char>, Seq<char>)> {
    match first_occurrence(s, sep) {
        Some(i) => Some((s.take(i), s.skip(i + sep.len()))),
        None => None,
    }
}

/// The pieces of `parts` that hold at least one character, in order.
pub open spec fn non_empty(parts: Seq<Seq<char>>) -> Seq<Seq<char>> {
    parts.filter(|p: Seq<char>| p.len() > 0)
}

/// The character for the decimal digit `d`.
pub open spec fn digit(d: nat) -> char
    recommends
        d < 10,
{
    (48 + d) as char
}

/// `n` written in decimal, without sign or leading zeros.
pub open spec fn decimal(n: nat) -> Seq<char>
    decreases n,
{
    if n < 10 {
        seq![digit(n)]
    } else {
        decimal(n / 10).push(digit(n % 10))
    }
}

/// Whether no occurrence of `sep` begins inside `part`, even where `sep`
/// comes right after it.
pub open spec fn separable(part: Seq<char>, sep: Seq<char>) -> bool {
    forall|j: int| 0 <= j < part.len() ==> !occurs_at(part + sep, sep, j)
}

/// The characters of `s`, in order.
///
/// Trusted: the body hands the iterator of `str::chars` to
/// `itertools::Itertools::collect_vec`, which gathers every item the iterator
/// yields, in the order it yields them, into a vector.
#[verifier::external_body]
pub(crate) fn chars_of(s: &str) -> (cs: Vec<char>)
    ensures
        cs@ == s@,
{
    s.chars().collect_vec()
}

/// The string made of the characters `cs`, in order.
///
/// Trusted: the body collects the characters into a `String` with
/// `Iterator::collect`, which appends them one after the other.
#[verifier::external_body]
pub(crate) fn string_of(cs: &[char]) -> (s: String)
    ensures
        s@ == cs@,
{
    cs.iter().collect()
}

/// Decides whether `c` is a whitespace character.
pub fn char_is_whitespace(c: char) -> (b: bool)
    ensures
        b == is_whitespace(c),
{
    c == ' ' || ('\u{9}' <= c && c <= '\u{d}') || c == '\u{85}' || c == '\u{a0}' || c
        == '\u{1680}' || ('\u{2000}' <= c && c <= '\u{200a}') || c == '\u{2028}' || c
        == '\u{2029}' || c == '\u{202f}' || c == '\u{205f}' || c == '\u{3000}'
}

/// Decides whether two strings hold the same characters.
pub fn str_eq(a: &str, b: &str) -> (same: bool)
    ensures
        same == (a@ == b@),
{
    a.to_owned() == b.to_owned()
}

/// Removes the whitespace at both ends of `s`.
pub fn trim(s: &str) -> (t: String)
    ensures
        t@ == trimmed(s@),
{
    let cs = chars_of(s);
    let mut start: usize = 0;
    assert(cs@.skip(0) =~= cs@);
    while start < cs.len() && char_is_whitespace(cs[start])
        invariant
            start <= cs.len(),
            trimmed_start(cs@) == trimmed_start(cs@.skip(start as int)),
        decreases cs.len() - start,
    {
        assert(cs@.skip(start as int).drop_first() =~= cs@.skip(start as int + 1));
        start += 1;
    }
    let mut end: usize = cs.len();
    assert(cs@.skip(start as int) =~= cs@.subrange(start as int, end as int));
    while end > start && char_is_whitespace(cs[end - 1])
        invariant
            start <= end <= cs.len(),
            trimmed_start(cs@) == cs@.skip(start as int),
            trimmed(cs@) == trimmed_end(cs@.subrange(start as int, end as int)),
        decreases end,
    {
        assert(cs@.subrange(start as int, end as int).drop_last() =~= cs@.subrange(
            start as int,
            end as int - 1,
        ));
        end -= 1;
    }
    string_of(slice_subrange(cs.as_slice(), start, end))
}

/// Looks for the leftmost occurrence of `pat` in `s` at or after index `from`.
fn find_from(s: &[char], pat: &[char], from: usize) -> (r: Option<usize>)
    requires
        from <= s.len(),
    ensures
        match r {
            Some(i) => from <= i && i + pat.len() <= s.len() && first_occurrence(
                s@.skip(from as int),
                pat@,
            ) == Some(i - from),
            None => first_occurrence(s@.skip(from as int), pat@) is None,
        },
{
    let n = s.len();
    let m = pat.len();
    let ghost t = s@.skip(from as int);
    if m > n - from {
        return None;
    }
    let mut i: usize = from;
    while i <= n - m
        invariant
            from <= i,
            m <= n - from,
            n == s.len(),
            m == pat.len(),
            t == s@.skip(from as int),
            forall|j: int| 0 <= j < i - from ==> !occurs_at(t, pat@, j),
        decreases n - i,
    {
        let mut k: usize = 0;
        while k < m && s[i + k] == pat[k]
            invariant
                k <= m,
                i <= n - m,
                n == s.len(),
                m == pat.len(),
                forall|l: int| 0 <= l < k ==> s@[i + l] == pat@[l],
            decreases m - k,
        {
            k += 1;
        }
        if k == m {
            proof {
                assert(t.subrange(i - from, i - from + m) =~= pat@);
                lemma_first_occurrence(t, pat@, i - from);
            }
            return Some(i);
        }
        assert(t.subrange(i - from, i - from + m)[k as int] != pat@[k as int]);
        i += 1;
    }
    None
}

/// Splits `s` at every occurrence of `sep`.
pub fn split(s: &str, sep: &str) -> (parts: Vec<String>)
    ensures
        parts.deep_view() == split_by(s@, sep@),
{
    let cs = chars_of(s);
    let ps = chars_of(sep);
    let mut parts: Vec<String> = Vec::new();
    if ps.len() == 0 {
        parts.push(string_of(cs.as_slice()));
        assert(parts.deep_view() =~= seq![s@]);
        return parts;
    }
    let mut pos: usize = 0;
    assert(cs@.skip(0) =~= cs@);
    assert(parts.deep_view() =~= Seq::<Seq<char>>::empty());
    loop
        invariant_except_break
            pos <= cs.len(),
            ps.len() > 0,
            split_by(cs@, ps@) == parts.deep_view() + split_by(cs@.skip(pos as int), ps@),
        ensures
            parts.deep_view() == split_by(cs@, ps@),
        decreases cs.len() - pos,
    {
        let ghost before = parts.deep_view();
        let ghost rest = cs@.skip(pos as int);
        match find_from(cs.as_slice(), ps.as_slice(), pos) {
            Some(i) => {
                parts.push(string_of(slice_subrange(cs.as_slice(), pos, i)));
                proof {
                    assert(rest.take(i - pos) =~= cs@.subrange(pos as int, i as int));
                    assert(rest.skip(i - pos + ps.len()) =~= cs@.skip(i + ps.len()));
                    assert(parts.deep_view() =~= before.push(rest.take(i - pos)));
                    assert(before + (seq![rest.take(i - pos)] + split_by(
                        cs@.skip(i + ps.len()),
                        ps@,
                    )) =~= before.push(rest.take(i - pos)) + split_by(
                        cs@.skip(i + ps.len()),
                        ps@,
                    ));
                }
                pos = i + ps.len();
            },
            None => {
                parts.push(string_of(slice_subrange(cs.as_slice(), pos, cs.len())));
                proof {
                    assert(rest =~= cs@.subrange(pos as int, cs.len() as int));
                    assert(parts.deep_view() =~= before.push(rest));
                    assert(before + seq![rest] =~= before.push(rest));
                }
                break ;
            },
        }
    }
    parts
}

/// Splits `s` at the leftmost occurrence of `sep`, if there is one.
pub fn split_once(s: &str, sep: &str) -> (r: Option<(String, String)>)
    ensures
        match r {
            Some((before, after)) => split_once_by(s@, sep@) == Some((before@, after@)),
            None => split_once_by(s@, sep@) is None,
        },
{
    let cs = chars_of(s);
    let ps = chars_of(sep);
    assert(cs@.skip(0) =~= cs@);
    match find_from(cs.as_slice(), ps.as_slice(), 0) {
        Some(i) => {
            let before = string_of(slice_subrange(cs.as_slice(), 0, i));
            let after = string_of(slice_subrange(cs.as_slice(), i + ps.len(), cs.len()));
            assert(before@ =~= cs@.take(i as int));
            assert(after@ =~= cs@.skip(i + ps.len()));
            Some((before, after))
        },
        None => None,
    }
}

/// Keeps the strings of `parts` that are not empty.
pub fn keep_non_empty(parts: &Vec<String>) -> (kept: Vec<String>)
    ensures
        kept.deep_view() == non_empty(parts.deep_view()),
{
    let mut kept: Vec<String> = Vec::new();
    let ghost pred = |p: Seq<char>| p.len() > 0;
    let ghost all = parts.deep_view();
    proof {
        assert(all.take(0) =~= Seq::<Seq<char>>::empty());
        reveal(Seq::filter);
        assert(kept.deep_view() =~= all.take(0).filter(pred));
    }
    for i in 0..parts.len()
        invariant
            all == parts.deep_view(),
            pred == |p: Seq<char>| p.len() > 0,
            kept.deep_view() == all.take(i as int).filter(pred),
    {
        let ghost before = kept.deep_view();
        proof {
            assert(all.take(i + 1) =~= all.take(i as int).push(all[i as int]));
            all.take(i as int).lemma_filter_push(all[i as int], pred);
        }
        if !parts[i].as_str().is_empty() {
            kept.push(parts[i].clone());
            assert(kept.deep_view() =~= before.push(all[i as int]));
        }
    }
    assert(all.take(parts.len() as int) =~= all);
    kept
}

/// Joins the strings of `parts` with nothing in between.
pub fn join_all(parts: &[String]) -> (joined: String)
    ensures
        joined@ == parts.deep_view().flatten(),
{
    let mut joined = String::new();
    let ghost all = parts.deep_view();
    assert(all.take(0) =~= Seq::<Seq<char>>::empty());
    for i in 0..parts.len()
        invariant
            all == parts.deep_view(),
            joined@ == all.take(i as int).flatten(),
    {
        proof {
            assert(all.take(i + 1) =~= all.take(i as int).push(all[i as int]));
            all.take(i as int).lemma_flatten_push(all[i as int]);
        }
        joined.append(parts[i].as_str());
    }
    assert(all.take(parts.len() as int) =~= all);
    joined
}

/// Appends the decimal digits of `n` to `out`.
fn push_decimal(n: usize, out: &mut Vec<char>)
    ensures
        final(out)@ == old(out)@ + decimal(n as nat),
    decreases n,
{
    if n >= 10 {
        push_decimal(n / 10, out);
    }
    let d: u8 = (n % 10) as u8;
    out.push((48u8 + d) as char);
    assert(out@ =~= old(out)@ + decimal(n as nat));
}

/// Writes `n` in decimal.
pub fn to_decimal(n: usize) -> (s: String)
    ensures
        s@ == decimal(n as nat),
{
    let mut digits: Vec<char> = Vec::new();
    push_decimal(n, &mut digits);
    string_of(digits.as_slice())
}

/// A leftmost occurrence is the only one that `first_occurrence` can pick.
pub proof fn lemma_first_occurrence(s: Seq<char>, pat: Seq<char>, i: int)
    requires
        is_first_occurrence(s, pat, i),
    ensures
        first_occurrence(s, pat) == Some(i),
{
    let j = choose|j: int| is_first_occurrence(s, pat, j);
    assert(occurs_at(s, pat, i) && occurs_at(s, pat, j));
}

/// Where a pattern occurs at all, it has a leftmost occurrence.
pub proof fn lemma_least_occurrence(s: Seq<char>, pat: Seq<char>, j: int)
    requires
        occurs_at(s, pat, j),
    ensures
        first_occurrence(s, pat) is Some,
    decreases j,
{
    if exists|i: int| 0 <= i < j && occurs_at(s, pat, i) {
        let i = choose|i: int| 0 <= i < j && occurs_at(s, pat, i);
        lemma_least_occurrence(s, pat, i);
    } else {
        assert(is_first_occurrence(s, pat, j));
    }
}

/// Splitting always gives at least one piece.
pub proof fn lemma_split_by_first(s: Seq<char>, sep: Seq<char>)
    ensures
        split_by(s, sep).len() >= 1,
{
}

/// A text in which the separator does not occur is a single piece.
pub proof fn lemma_split_whole(s: Seq<char>, sep: Seq<char>)
    requires
        forall|j: int| !occurs_at(s, sep, j),
    ensures
        split_by(s, sep) == seq![s],
{
}

/// Splitting cuts at the leftmost separator and goes on behind it.
pub proof fn lemma_split_unfold(s: Seq<char>, sep: Seq<char>, i: int)
    requires
        sep.len() > 0,
        is_first_occurrence(s, sep, i),
    ensures
        split_by(s, sep) == seq![s.take(i)] + split_by(s.skip(i + sep.len()), sep),
{
    lemma_first_occurrence(s, sep, i);
}

/// A part inside which no separator begins, followed by a separator, comes
/// out of a split as the first piece, and the rest is split on its own.
pub proof fn lemma_split_prefix(part: Seq<char>, sep: Seq<char>, rest: Seq<char>)
    requires
        sep.len() > 0,
        separable(part, sep),
    ensures
        split_by(part + sep + rest, sep) == seq![part] + split_by(rest, sep),
{
    let s = part + sep + rest;
    let n = part.len() as int;
    assert(s.subrange(n, n + sep.len()) =~= sep);
    assert forall|j: int| 0 <= j < n implies !occurs_at(s, sep, j) by {
        if occurs_at(s, sep, j) {
            assert((part + sep).subrange(j, j + sep.len()) =~= s.subrange(j, j + sep.len()));
            assert(occurs_at(part + sep, sep, j));
        }
    }
    lemma_split_unfold(s, sep, n);
    assert(s.take(n) =~= part);
    assert(s.skip(n + sep.len()) =~= rest);
}

/// A part that lacks the first character of the separator is separable.
pub proof fn lemma_separable_without(part: Seq<char>, sep: Seq<char>)
    requires
        sep.len() > 0,
        !part.contains(sep[0]),
    ensures
        separable(part, sep),
        forall|j: int| !occurs_at(part, sep, j),
{
    assert forall|j: int| 0 <= j < part.len() implies !occurs_at(part + sep, sep, j) by {
        if occurs_at(part + sep, sep, j) {
            assert((part + sep).subrange(j, j + sep.len())[0] == sep[0]);
            assert(part[j] == sep[0]);
        }
    }
    assert forall|j: int| !occurs_at(part, sep, j) by {
        if occurs_at(part, sep, j) {
            assert(part.subrange(j, j + sep.len())[0] == sep[0]);
            assert(part[j] == sep[0]);
        }
    }
}

/// The separator occurs in none of the pieces of a split.
pub proof fn lemma_pieces_lack_separator(s: Seq<char>, sep: Seq<char>)
    requires
        sep.len() > 0,
    ensures
        forall|p: int, k: int|
            0 <= p < split_by(s, sep).len() ==> !#[trigger] occurs_at(split_by(s, sep)[p], sep, k),
    decreases s.len(),
{
    match first_occurrence(s, sep) {
        Some(i) => {
            let rest = s.skip(i + sep.len());
            lemma_pieces_lack_separator(rest, sep);
            assert forall|p: int, k: int| 0 <= p < split_by(s, sep).len() implies !#[trigger] occurs_at(
                split_by(s, sep)[p],
                sep,
                k,
            ) by {
                if p == 0 {
                    if occurs_at(s.take(i), sep, k) {
                        assert(s.take(i).subrange(k, k + sep.len()) =~= s.subrange(
                            k,
                            k + sep.len(),
                        ));
                        assert(occurs_at(s, sep, k));
                    }
                } else {
                    assert(split_by(s, sep)[p] == split_by(rest, sep)[p - 1]);
                }
            }
        },
        None => {
            assert forall|p: int, k: int| 0 <= p < split_by(s, sep).len() implies !#[trigger] occurs_at(
                split_by(s, sep)[p],
                sep,
                k,
            ) by {
                if occurs_at(s, sep, k) {
                    lemma_least_occurrence(s, sep, k);
                }
            }
        },
    }
}

/// Trimming leaves a text alone that neither begins nor ends with
/// whitespace.
pub proof fn lemma_trimmed_fixed(s: Seq<char>)
    requires
        s.len() > 0 ==> !is_whitespace(s.first()) && !is_whitespace(s.last()),
    ensures
        trimmed(s) == s,
{
}

/// Whitespace in front of a text is trimmed away with the rest.
pub proof fn lemma_trimmed_after_whitespace(c: char, s: Seq<char>)
    requires
        is_whitespace(c),
    ensures
        trimmed(seq![c] + s) == trimmed(s),
{
    assert((seq![c] + s).drop_first() =~= s);
}

} // verus!
