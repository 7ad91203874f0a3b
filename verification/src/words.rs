use crate::text::{append, char_is_space, is_space, slice_of, views_of};
use vstd::prelude::*;

verus! {

/// A left-to-right pass over `s`: the words already closed, and the characters
/// of the word that is still open (empty between words).
pub open spec fn scan(s: Seq<char>) -> (Seq<Seq<char>>, Seq<char>)
    decreases s.len(),
{
    if s.len() == 0 {
        (Seq::empty(), Seq::empty())
    } else {
        let (done, open) = scan(s.drop_last());
        if is_space(s.last()) {
            if open.len() > 0 {
                (done.push(open), Seq::empty())
            } else {
                (done, open)
            }
        } else {
            (done, open.push(s.last()))
        }
    }
}

/// The maximal runs of characters of `s` that hold no white space, in order.
pub open spec fn tokens(s: Seq<char>) -> Seq<Seq<char>> {
    let (done, open) = scan(s);
    if open.len() > 0 {
        done.push(open)
    } else {
        done
    }
}

/// A word: at least one character, none of them white space.
pub open spec fn is_word(w: Seq<char>) -> bool {
    w.len() > 0 && forall|i: int| 0 <= i < w.len() ==> !is_space(#[trigger] w[i])
}

/// Each of `ws` is a word.
pub open spec fn all_words(ws: Seq<Seq<char>>) -> bool {
    forall|i: int| 0 <= i < ws.len() ==> is_word(#[trigger] ws[i])
}

/// The parts with `sep` between each two neighbours.
pub open spec fn join(parts: Seq<Seq<char>>, sep: Seq<char>) -> Seq<char>
    decreases parts.len(),
{
    if parts.len() == 0 {
        Seq::empty()
    } else if parts.len() == 1 {
        parts[0]
    } else {
        join(parts.drop_last(), sep) + sep + parts.last()
    }
}

/// `s` without the white space at its beginning.
pub open spec fn trim_start(s: Seq<char>) -> Seq<char>
    decreases s.len(),
{
    if s.len() > 0 && is_space(s[0]) {
        trim_start(s.drop_first())
    } else {
        s
    }
}

/// `s` without the white space at its end.
pub open spec fn trim_end(s: Seq<char>) -> Seq<char>
    decreases s.len(),
{
    if s.len() > 0 && is_space(s.last()) {
        trim_end(s.drop_last())
    } else {
        s
    }
}

/// `s` without the white space at its two ends.
pub open spec fn trim(s: Seq<char>) -> Seq<char> {
    trim_end(trim_start(s))
}

/// Every character of `s` is white space.
pub open spec fn is_blank(s: Seq<char>) -> bool {
    forall|i: int| 0 <= i < s.len() ==> is_space(#[trigger] s[i])
}

/// The open word of a scan holds no white space, and every closed word is a word.
pub proof fn lemma_scan_words(s: Seq<char>)
    ensures
        all_words(scan(s).0),
        forall|i: int| 0 <= i < scan(s).1.len() ==> !is_space(#[trigger] scan(s).1[i]),
    decreases s.len(),
{
    if s.len() > 0 {
        lemma_scan_words(s.drop_last());
    }
}

/// Every token is a word.
pub proof fn lemma_tokens_are_words(s: Seq<char>)
    ensures
        all_words(tokens(s)),
{
    lemma_scan_words(s);
}

/// Scanning `a + b` goes on from the scan of `a`.
pub proof fn lemma_scan_push(s: Seq<char>, c: char)
    ensures
        scan(s.push(c)) == if is_space(c) {
            if scan(s).1.len() > 0 {
                (scan(s).0.push(scan(s).1), Seq::<char>::empty())
            } else {
                scan(s)
            }
        } else {
            (scan(s).0, scan(s).1.push(c))
        },
{
    assert(s.push(c).drop_last() == s);
}

/// After white space no word is open, and all words so far are closed.
pub proof fn lemma_scan_space(s: Seq<char>, c: char)
    requires
        is_space(c),
    ensures
        scan(s.push(c)) == (tokens(s), Seq::<char>::empty()),
{
    lemma_scan_push(s, c);
    lemma_scan_words(s);
}

/// Where no word is open after `a`, scanning `a + b` gives the words of
/// `a`, then what scanning `b` alone gives.
pub proof fn lemma_scan_after_space(a: Seq<char>, b: Seq<char>)
    requires
        scan(a).1.len() == 0,
    ensures
        scan(a + b) == (scan(a).0 + scan(b).0, scan(b).1),
    decreases b.len(),
{
    if b.len() == 0 {
        assert(a + b == a);
        assert(scan(a).0 + scan(b).0 == scan(a).0);
        assert(scan(a).1 == scan(b).1);
    } else {
        let head = b.drop_last();
        let c = b.last();
        lemma_scan_after_space(a, head);
        assert(a + b == (a + head).push(c));
        assert(b == head.push(c));
        lemma_scan_push(a + head, c);
        lemma_scan_push(head, c);
        let (done, open) = scan(head);
        if is_space(c) && open.len() > 0 {
            assert((scan(a).0 + done).push(open) == scan(a).0 + done.push(open));
        }
    }
}

/// The words of two texts with white space between them are the words of
/// the first, then those of the second.
pub proof fn lemma_tokens_parted(a: Seq<char>, sep: Seq<char>, b: Seq<char>)
    requires
        sep.len() > 0,
        is_blank(sep),
    ensures
        tokens(a + sep + b) == tokens(a) + tokens(b),
{
    lemma_scan_blank(a, sep);
    lemma_scan_after_space(a + sep, b);
    let (done, open) = scan(b);
    if open.len() > 0 {
        assert((tokens(a) + done).push(open) == tokens(a) + done.push(open));
    }
}

/// After a text and white space behind it, the words of the text are
/// closed and none is open.
pub proof fn lemma_scan_blank(a: Seq<char>, sep: Seq<char>)
    requires
        sep.len() > 0,
        is_blank(sep),
    ensures
        scan(a + sep) == (tokens(a), Seq::<char>::empty()),
    decreases sep.len(),
{
    let head = sep.drop_last();
    assert(a + sep == (a + head).push(sep.last()));
    assert(is_space(sep[sep.len() - 1]));
    lemma_scan_space(a + head, sep.last());
    if head.len() == 0 {
        assert(a + head == a);
    } else {
        assert(is_blank(head)) by {
            assert forall|i: int| 0 <= i < head.len() implies is_space(#[trigger] head[i]) by {
                assert(head[i] == sep[i]);
            }
        }
        lemma_scan_blank(a, head);
    }
}

/// A text has no word exactly if it holds nothing but white space.
pub proof fn lemma_no_tokens(s: Seq<char>)
    ensures
        (tokens(s).len() == 0) == is_blank(s),
    decreases s.len(),
{
    if s.len() > 0 {
        let head = s.drop_last();
        lemma_no_tokens(head);
        assert(s == head.push(s.last()));
        lemma_scan_push(head, s.last());
        if is_blank(s) {
            assert(is_blank(head)) by {
                assert forall|i: int| 0 <= i < head.len() implies is_space(#[trigger] head[i]) by {
                    assert(head[i] == s[i]);
                }
            }
            assert(is_space(s[s.len() - 1]));
        } else {
            if is_blank(head) {
                assert(!is_space(s.last())) by {
                    if is_space(s.last()) {
                        assert forall|i: int| 0 <= i < s.len() implies is_space(#[trigger] s[i]) by {
                            if i < head.len() {
                                assert(s[i] == head[i]);
                            }
                        }
                    }
                }
            }
        }
    }
}

/// Trimming takes no word away.
pub proof fn lemma_tokens_trim(s: Seq<char>)
    ensures
        tokens(trim(s)) == tokens(s),
{
    lemma_tokens_trim_start(s);
    lemma_tokens_trim_end(trim_start(s));
}

/// Trimming the beginning takes no word away.
pub proof fn lemma_tokens_trim_start(s: Seq<char>)
    ensures
        tokens(trim_start(s)) == tokens(s),
    decreases s.len(),
{
    if s.len() > 0 && is_space(s[0]) {
        lemma_tokens_trim_start(s.drop_first());
        let first = seq![s[0]];
        assert(Seq::<char>::empty() + first == first);
        assert(is_blank(first));
        lemma_tokens_parted(Seq::empty(), first, s.drop_first());
        assert(Seq::<char>::empty() + first + s.drop_first() == s);
        assert(tokens(Seq::<char>::empty()) + tokens(s.drop_first()) == tokens(s.drop_first()));
    }
}

/// Trimming the end takes no word away.
pub proof fn lemma_tokens_trim_end(s: Seq<char>)
    ensures
        tokens(trim_end(s)) == tokens(s),
    decreases s.len(),
{
    if s.len() > 0 && is_space(s.last()) {
        lemma_tokens_trim_end(s.drop_last());
        assert(s == s.drop_last().push(s.last()));
        lemma_scan_space(s.drop_last(), s.last());
    }
}

/// The words of all the texts, in order.
pub open spec fn all_tokens(texts: Seq<Seq<char>>) -> Seq<Seq<char>>
    decreases texts.len(),
{
    if texts.len() == 0 {
        Seq::empty()
    } else {
        all_tokens(texts.drop_last()) + tokens(texts.last())
    }
}

/// The words of one text alone.
pub proof fn lemma_all_tokens_one(x: Seq<char>)
    ensures
        all_tokens(seq![x]) == tokens(x),
{
    let one = seq![x];
    assert(one.drop_last() =~= Seq::<Seq<char>>::empty());
    assert(all_tokens(one.drop_last()) =~= Seq::<Seq<char>>::empty());
    assert(one.last() == x);
    assert(Seq::<Seq<char>>::empty() + tokens(x) =~= tokens(x));
}

/// The words of texts put one after the other are the words of the first
/// texts, then those of the rest.
pub proof fn lemma_all_tokens_concat(a: Seq<Seq<char>>, b: Seq<Seq<char>>)
    ensures
        all_tokens(a + b) == all_tokens(a) + all_tokens(b),
    decreases b.len(),
{
    if b.len() == 0 {
        assert(a + b == a);
        assert(all_tokens(a) + all_tokens(b) == all_tokens(a));
    } else {
        lemma_all_tokens_concat(a, b.drop_last());
        assert((a + b).drop_last() == a + b.drop_last());
        assert((a + b).last() == b.last());
        assert(all_tokens(a) + all_tokens(b.drop_last()) + tokens(b.last()) == all_tokens(a) + (
        all_tokens(b.drop_last()) + tokens(b.last())));
    }
}

/// Scanning on over a run of characters that are no white space only makes
/// the open word longer.
pub proof fn lemma_scan_append_word(s: Seq<char>, w: Seq<char>)
    requires
        forall|i: int| 0 <= i < w.len() ==> !is_space(#[trigger] w[i]),
    ensures
        scan(s + w) == (scan(s).0, scan(s).1 + w),
    decreases w.len(),
{
    if w.len() == 0 {
        assert(s + w == s);
        assert(scan(s).1 + w == scan(s).1);
    } else {
        let head = w.drop_last();
        lemma_scan_append_word(s, head);
        assert(s + w == (s + head).push(w.last()));
        lemma_scan_push(s + head, w.last());
        assert(scan(s).1 + w == (scan(s).1 + head).push(w.last()));
    }
}

/// After words joined by single blanks, all but the last are closed and
/// the last is open.
pub proof fn lemma_scan_join(ws: Seq<Seq<char>>)
    requires
        all_words(ws),
        ws.len() > 0,
    ensures
        scan(join(ws, seq![' '])) == (ws.drop_last(), ws.last()),
    decreases ws.len(),
{
    if ws.len() == 1 {
        assert(is_word(ws[0]));
        lemma_scan_append_word(Seq::empty(), ws[0]);
        assert(Seq::<char>::empty() + ws[0] == ws[0]);
        assert(ws.drop_last() == Seq::<Seq<char>>::empty());
    } else {
        let head = ws.drop_last();
        assert(all_words(head)) by {
            assert forall|i: int| 0 <= i < head.len() implies is_word(#[trigger] head[i]) by {
                assert(head[i] == ws[i]);
            }
        }
        lemma_scan_join(head);
        let j = join(head, seq![' ']);
        assert(j + seq![' '] == j.push(' '));
        lemma_scan_push(j, ' ');
        assert(is_word(head.last()));
        assert(head.drop_last().push(head.last()) == head);
        assert(is_word(ws[ws.len() - 1]));
        lemma_scan_append_word(j.push(' '), ws.last());
        assert(Seq::<char>::empty() + ws.last() == ws.last());
    }
}

/// Words joined by single blanks are cut into the same words again.
pub proof fn lemma_tokens_of_join(ws: Seq<Seq<char>>)
    requires
        all_words(ws),
    ensures
        tokens(join(ws, seq![' '])) == ws,
{
    if ws.len() > 0 {
        lemma_scan_join(ws);
        assert(is_word(ws[ws.len() - 1]));
        assert(ws.drop_last().push(ws.last()) == ws);
    }
}

/// The words of `s`, as `str::split_whitespace` cuts them.
pub fn split_whitespace(s: &Vec<char>) -> (r: Vec<Vec<char>>)
    ensures
        views_of(r@) == tokens(s@),
{
    let mut done: Vec<Vec<char>> = Vec::new();
    let mut open: Vec<char> = Vec::new();
    let mut i: usize = 0;
    while i < s.len()
        invariant
            i <= s.len(),
            views_of(done@) == scan(s@.take(i as int)).0,
            open@ == scan(s@.take(i as int)).1,
        decreases s.len() - i,
    {
        let c = s[i];
        proof {
            lemma_scan_push(s@.take(i as int), c);
            assert(s@.take(i + 1) == s@.take(i as int).push(c));
        }
        let ghost before = views_of(done@);
        if char_is_space(c) {
            if open.len() > 0 {
                let ghost w = open@;
                done.push(open);
                open = Vec::new();
                assert(views_of(done@) =~= before.push(w));
            }
        } else {
            open.push(c);
        }
        i += 1;
    }
    assert(s@.take(s.len() as int) == s@);
    if open.len() > 0 {
        let ghost before = views_of(done@);
        let ghost w = open@;
        done.push(open);
        assert(views_of(done@) =~= before.push(w));
    }
    done
}

/// The number of words of `s`.
pub fn count_words(s: &Vec<char>) -> (n: usize)
    ensures
        n == tokens(s@).len(),
{
    let mut n: usize = 0;
    let mut in_word = false;
    let mut i: usize = 0;
    while i < s.len()
        invariant
            i <= s.len(),
            in_word == (scan(s@.take(i as int)).1.len() > 0),
            n == scan(s@.take(i as int)).0.len(),
            n + (if in_word { 1int } else { 0int }) <= i,
        decreases s.len() - i,
    {
        let c = s[i];
        proof {
            lemma_scan_push(s@.take(i as int), c);
            assert(s@.take(i + 1) == s@.take(i as int).push(c));
        }
        if char_is_space(c) {
            if in_word {
                n += 1;
                in_word = false;
            }
        } else {
            in_word = true;
        }
        i += 1;
    }
    assert(s@.take(s.len() as int) == s@);
    if in_word {
        n += 1;
    }
    n
}

/// The parts from `from` up to `to`, with `sep` between each two neighbours.
pub fn join_range(parts: &Vec<Vec<char>>, from: usize, to: usize, sep: &Vec<char>) -> (r: Vec<char>)
    requires
        from <= to <= parts.len(),
    ensures
        r@ == join(views_of(parts@).subrange(from as int, to as int), sep@),
{
    let mut out: Vec<char> = Vec::new();
    let mut i: usize = from;
    while i < to
        invariant
            from <= i <= to <= parts.len(),
            out@ == join(views_of(parts@).subrange(from as int, i as int), sep@),
        decreases to - i,
    {
        proof {
            let p = views_of(parts@).subrange(from as int, i + 1);
            assert(p.drop_last() == views_of(parts@).subrange(from as int, i as int));
            assert(p.last() == parts[i as int]@);
        }
        if i > from {
            append(&mut out, sep);
        }
        append(&mut out, &parts[i]);
        i += 1;
    }
    out
}

/// The parts with `sep` between each two neighbours.
pub fn join_with(parts: &Vec<Vec<char>>, sep: &Vec<char>) -> (r: Vec<char>)
    ensures
        r@ == join(views_of(parts@), sep@),
{
    assert(views_of(parts@).subrange(0, parts.len() as int) == views_of(parts@));
    join_range(parts, 0, parts.len(), sep)
}

/// `s` without the white space at its two ends.
pub fn trim_chars(s: &Vec<char>) -> (r: Vec<char>)
    ensures
        r@ == trim(s@),
{
    let mut from: usize = 0;
    assert(s@.skip(0) == s@);
    while from < s.len() && char_is_space(s[from])
        invariant
            from <= s.len(),
            trim_start(s@) == trim_start(s@.skip(from as int)),
        decreases s.len() - from,
    {
        assert(s@.skip(from as int).drop_first() == s@.skip(from + 1));
        from += 1;
    }
    let ghost rest = s@.skip(from as int);
    assert(trim_start(s@) == rest);
    let mut to: usize = s.len();
    assert(rest.take(to - from) == rest);
    while to > from && char_is_space(s[to - 1])
        invariant
            from <= to <= s.len(),
            rest == s@.skip(from as int),
            trim_end(rest) == trim_end(rest.take(to - from)),
        decreases to,
    {
        assert(rest.take(to - from).drop_last() == rest.take(to - from - 1));
        to -= 1;
    }
    assert(rest.take(to - from) == s@.subrange(from as int, to as int));
    slice_of(s, from, to)
}

/// Whether `s` holds nothing but white space.
pub fn is_blank_chars(s: &Vec<char>) -> (r: bool)
    ensures
        r == is_blank(s@),
{
    let mut i: usize = 0;
    while i < s.len()
        invariant
            i <= s.len(),
            forall|k: int| 0 <= k < i ==> is_space(#[trigger] s@[k]),
        decreases s.len() - i,
    {
        if !char_is_space(s[i]) {
            return false;
        }
        i += 1;
    }
    true
}

} // verus!
