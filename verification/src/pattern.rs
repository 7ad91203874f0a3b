use crate::text::{slice_of, views_of};
use crate::words::{
    all_tokens, is_blank, lemma_all_tokens_concat, lemma_all_tokens_one, lemma_tokens_parted,
    tokens,
};
use vstd::prelude::*;

verus! {

/// `pat` stands in `s` at position `i`.
pub open spec fn occurs_at(s: Seq<char>, pat: Seq<char>, i: int) -> bool {
    0 <= i && i + pat.len() <= s.len() && s.subrange(i, i + pat.len()) == pat
}

/// The first position at or after `k` where `pat` stands in `s`.
pub open spec fn find_from(s: Seq<char>, pat: Seq<char>, k: int) -> Option<int>
    decreases s.len() - k + 1,
{
    if k < 0 || k + pat.len() > s.len() {
        None
    } else if occurs_at(s, pat, k) {
        Some(k)
    } else {
        find_from(s, pat, k + 1)
    }
}

/// The first position where `pat` stands in `s`.
pub open spec fn find(s: Seq<char>, pat: Seq<char>) -> Option<int> {
    find_from(s, pat, 0)
}

/// `pat` stands somewhere in `s`.
pub open spec fn contains(s: Seq<char>, pat: Seq<char>) -> bool {
    find(s, pat) is Some
}

/// `find_from` gives the least position at or after `k` where `pat` stands,
/// and none exactly when there is no such position.
pub proof fn lemma_find_from(s: Seq<char>, pat: Seq<char>, k: int)
    requires
        0 <= k,
    ensures
        match find_from(s, pat, k) {
            Some(i) => k <= i && occurs_at(s, pat, i) && forall|j: int|
                k <= j < i ==> !occurs_at(s, pat, j),
            None => forall|j: int| k <= j ==> !occurs_at(s, pat, j),
        },
    decreases s.len() - k + 1,
{
    if k + pat.len() <= s.len() && !occurs_at(s, pat, k) {
        lemma_find_from(s, pat, k + 1);
    }
}

/// `contains` holds exactly when `pat` stands at some position of `s`.
pub proof fn lemma_contains(s: Seq<char>, pat: Seq<char>)
    ensures
        contains(s, pat) <==> exists|i: int| occurs_at(s, pat, i),
{
    lemma_find_from(s, pat, 0);
    if contains(s, pat) {
        assert(occurs_at(s, pat, find(s, pat).unwrap()));
    }
}

/// The pieces of `s` between the occurrences of `pat` found from left to
/// right, each search starting behind the occurrence before it.
pub open spec fn split_from(s: Seq<char>, pat: Seq<char>, start: int) -> Seq<Seq<char>>
    decreases s.len() - start,
{
    match find_from(s, pat, start) {
        Some(i) => if pat.len() > 0 && start <= i && i + pat.len() <= s.len() {
            seq![s.subrange(start, i)] + split_from(s, pat, i + pat.len())
        } else {
            seq![s.skip(start)]
        },
        None => seq![s.skip(start)],
    }
}

/// The pieces of `s` that the separator `pat` parts.
pub open spec fn split_on(s: Seq<char>, pat: Seq<char>) -> Seq<Seq<char>> {
    split_from(s, pat, 0)
}

/// Where the separator is white space, the words of the pieces are the
/// words of the text: splitting loses no word and parts none.
pub proof fn lemma_split_keeps_tokens(s: Seq<char>, pat: Seq<char>, start: int)
    requires
        pat.len() > 0,
        is_blank(pat),
        0 <= start <= s.len(),
    ensures
        all_tokens(split_from(s, pat, start)) == tokens(s.skip(start)),
    decreases s.len() - start,
{
    lemma_find_from(s, pat, start);
    let rest = s.skip(start);
    match find_from(s, pat, start) {
        Some(i) => {
            let piece = s.subrange(start, i);
            let behind = s.skip(i + pat.len());
            let more = split_from(s, pat, i + pat.len());
            lemma_split_keeps_tokens(s, pat, i + pat.len());
            assert(rest =~= piece + pat + behind);
            lemma_tokens_parted(piece, pat, behind);
            lemma_all_tokens_concat(seq![piece], more);
            lemma_all_tokens_one(piece);
        },
        None => {
            lemma_all_tokens_one(rest);
        },
    }
}

/// A line without the carriage return that may end it.
pub open spec fn strip_cr(l: Seq<char>) -> Seq<char> {
    if l.len() > 0 && l.last() == '\r' {
        l.drop_last()
    } else {
        l
    }
}

/// The lines of `s` from position `start` on.
pub open spec fn lines_from(s: Seq<char>, start: int) -> Seq<Seq<char>>
    decreases s.len() - start,
{
    if start < 0 || start >= s.len() {
        Seq::empty()
    } else {
        match find_from(s, seq!['\n'], start) {
            Some(i) => if start <= i < s.len() {
                seq![strip_cr(s.subrange(start, i))] + lines_from(s, i + 1)
            } else {
                seq![s.skip(start)]
            },
            None => seq![s.skip(start)],
        }
    }
}

/// The lines of `s`. A line ends at a line feed, which is left out together
/// with a carriage return directly before it; a last line needs no line feed.
pub open spec fn lines(s: Seq<char>) -> Seq<Seq<char>> {
    lines_from(s, 0)
}

/// Whether `pat` stands in `s` at position `k`.
pub fn matches_at(s: &Vec<char>, pat: &Vec<char>, k: usize) -> (r: bool)
    ensures
        r == occurs_at(s@, pat@, k as int),
{
    if pat.len() > s.len() || k > s.len() - pat.len() {
        return false;
    }
    let mut j: usize = 0;
    while j < pat.len()
        invariant
            j <= pat.len(),
            k + pat.len() <= s.len(),
            s@.subrange(k as int, k + j) == pat@.take(j as int),
        decreases pat.len() - j,
    {
        if s[k + j] != pat[j] {
            assert(s@.subrange(k as int, k + pat.len())[j as int] != pat@[j as int]);
            return false;
        }
        assert(s@.subrange(k as int, k + j + 1) == s@.subrange(k as int, k + j).push(
            s@[k + j],
        ));
        assert(pat@.take(j + 1) == pat@.take(j as int).push(pat@[j as int]));
        j += 1;
    }
    assert(pat@.take(pat.len() as int) == pat@);
    true
}

/// The first position at or after `start` where `pat` stands in `s`.
pub fn find_in_from(s: &Vec<char>, pat: &Vec<char>, start: usize) -> (r: Option<usize>)
    ensures
        match r {
            Some(i) => find_from(s@, pat@, start as int) == Some(i as int),
            None => find_from(s@, pat@, start as int) is None,
        },
{
    if pat.len() > s.len() {
        return None;
    }
    let last: usize = s.len() - pat.len();
    let mut k: usize = start;
    while k <= last
        invariant
            last == s.len() - pat.len(),
            start <= k,
            find_from(s@, pat@, start as int) == find_from(s@, pat@, k as int),
        decreases last + 1 - k,
    {
        if matches_at(s, pat, k) {
            return Some(k);
        }
        if k == last {
            assert(find_from(s@, pat@, k + 1) is None);
            return None;
        }
        k += 1;
    }
    None
}

/// The first position where `pat` stands in `s`.
pub fn find_in(s: &Vec<char>, pat: &Vec<char>) -> (r: Option<usize>)
    ensures
        match r {
            Some(i) => find(s@, pat@) == Some(i as int),
            None => find(s@, pat@) is None,
        },
{
    find_in_from(s, pat, 0)
}

/// Whether `pat` stands somewhere in `s`.
pub fn contains_chars(s: &Vec<char>, pat: &Vec<char>) -> (r: bool)
    ensures
        r == contains(s@, pat@),
{
    find_in(s, pat).is_some()
}

/// The pieces of `s` that the separator `pat` parts, as `str::split` cuts them.
pub fn split_by(s: &Vec<char>, pat: &Vec<char>) -> (r: Vec<Vec<char>>)
    requires
        pat.len() > 0,
    ensures
        views_of(r@) == split_on(s@, pat@),
{
    let mut out: Vec<Vec<char>> = Vec::new();
    let mut start: usize = 0;
    loop
        invariant
            pat.len() > 0,
            start <= s.len(),
            split_on(s@, pat@) == views_of(out@) + split_from(s@, pat@, start as int),
        decreases s.len() - start,
    {
        let ghost before = views_of(out@);
        proof {
            lemma_find_from(s@, pat@, start as int);
        }
        match find_in_from(s, pat, start) {
            Some(i) => {
                let piece = slice_of(s, start, i);
                out.push(piece);
                assert(views_of(out@) =~= before.push(s@.subrange(start as int, i as int)));
                assert(split_on(s@, pat@) =~= views_of(out@) + split_from(
                    s@,
                    pat@,
                    i + pat.len(),
                ));
                start = i + pat.len();
            },
            None => {
                let piece = slice_of(s, start, s.len());
                out.push(piece);
                assert(views_of(out@) =~= before.push(s@.skip(start as int)));
                assert(split_on(s@, pat@) =~= views_of(out@));
                return out;
            },
        }
    }
}

/// The lines of `s`, as `str::lines` cuts them.
pub fn lines_of(s: &Vec<char>) -> (r: Vec<Vec<char>>)
    ensures
        views_of(r@) == lines(s@),
{
    let mut out: Vec<Vec<char>> = Vec::new();
    let mut start: usize = 0;
    let pat: Vec<char> = vec!['\n'];
    assert(pat@ == seq!['\n']);
    while start < s.len()
        invariant
            pat@ == seq!['\n'],
            start <= s.len(),
            lines(s@) == views_of(out@) + lines_from(s@, start as int),
        decreases s.len() - start,
    {
        let ghost before = views_of(out@);
        proof {
            lemma_find_from(s@, pat@, start as int);
        }
        match find_in_from(s, &pat, start) {
            Some(i) => {
                let end: usize = if i > start && s[i - 1] == '\r' {
                    i - 1
                } else {
                    i
                };
                let ghost raw = s@.subrange(start as int, i as int);
                assert(strip_cr(raw) == s@.subrange(start as int, end as int)) by {
                    if i > start {
                        assert(raw.last() == s@[i - 1]);
                        assert(raw.drop_last() == s@.subrange(start as int, i - 1));
                    }
                }
                let piece = slice_of(s, start, end);
                out.push(piece);
                assert(views_of(out@) =~= before.push(strip_cr(raw)));
                assert(lines(s@) =~= views_of(out@) + lines_from(s@, i + 1));
                start = i + 1;
            },
            None => {
                let piece = slice_of(s, start, s.len());
                out.push(piece);
                assert(views_of(out@) =~= before.push(s@.skip(start as int)));
                assert(lines(s@) =~= views_of(out@));
                return out;
            },
        }
    }
    assert(lines(s@) =~= views_of(out@));
    out
}

} // verus!
