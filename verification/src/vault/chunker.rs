use crate::pattern::{lemma_split_keeps_tokens, split_by, split_on};
use crate::text::{append, chars_of, string_of, strings_of, views_of};
use crate::words::{
    all_tokens, all_words, count_words, is_blank, is_blank_chars, is_word, join, join_range,
    lemma_no_tokens, lemma_tokens_are_words, lemma_tokens_of_join, lemma_tokens_parted,
    lemma_tokens_trim, split_whitespace, tokens, trim, trim_chars,
};
use vstd::prelude::*;

verus! {

/// The separator between two paragraphs: an empty line.
pub open spec fn blank_line() -> Seq<char> {
    seq!['\n', '\n']
}

/// The window over `words` that begins at `start`: `size` words, or those
/// that are left if they are fewer.
pub open spec fn window_at(words: Seq<Seq<char>>, size: int, start: int) -> Seq<Seq<char>> {
    words.subrange(
        start,
        if start + size >= words.len() {
            words.len() as int
        } else {
            start + size
        },
    )
}

/// The windows over `words` from position `start` on: each begins
/// `size - overlap` words after the one before, and there is one for each
/// such beginning before the end.
pub open spec fn windows_from(
    words: Seq<Seq<char>>,
    size: int,
    overlap: int,
    start: int,
) -> Seq<Seq<Seq<char>>>
    decreases words.len() - start + size,
{
    if start < 0 || start >= words.len() || overlap < 0 || overlap >= size {
        Seq::empty()
    } else {
        seq![window_at(words, size, start)] + windows_from(
            words,
            size,
            overlap,
            start + size - overlap,
        )
    }
}

/// The windows over `words`.
pub open spec fn windows(words: Seq<Seq<char>>, size: int, overlap: int) -> Seq<Seq<Seq<char>>> {
    windows_from(words, size, overlap, 0)
}

/// Each window as one text, its words parted by a single blank.
pub open spec fn joined(ws: Seq<Seq<Seq<char>>>) -> Seq<Seq<char>> {
    Seq::new(ws.len(), |i: int| join(ws[i], seq![' ']))
}

/// The chunks of a text cut into windows of words.
pub open spec fn window_chunks(text: Seq<char>, size: int, overlap: int) -> Seq<Seq<char>> {
    joined(windows(tokens(text), size, overlap))
}

/// The pieces that are more than white space.
pub open spec fn drop_blank(ps: Seq<Seq<char>>) -> Seq<Seq<char>>
    decreases ps.len(),
{
    if ps.len() == 0 {
        ps
    } else if is_blank(ps.last()) {
        drop_blank(ps.drop_last())
    } else {
        drop_blank(ps.drop_last()).push(ps.last())
    }
}

/// The paragraphs of a text: what stands between empty lines, without the
/// pieces that hold only white space.
pub open spec fn paragraphs(text: Seq<char>) -> Seq<Seq<char>> {
    drop_blank(split_on(text, blank_line()))
}

/// Takes one more paragraph: it joins the chunk that is being filled unless
/// the two together hold more than `size` words; then that chunk is closed
/// and the paragraph starts the next one.
pub open spec fn pack_step(
    state: (Seq<Seq<char>>, Seq<char>),
    p: Seq<char>,
    size: int,
) -> (Seq<Seq<char>>, Seq<char>) {
    let (closed, filling) = state;
    if tokens(filling).len() + tokens(p).len() > size {
        (
            if filling.len() > 0 {
                closed.push(trim(filling))
            } else {
                closed
            },
            p,
        )
    } else {
        (
            closed,
            if filling.len() > 0 {
                filling + blank_line() + p
            } else {
                p
            },
        )
    }
}

/// The chunks closed and the chunk being filled after all of `ps` are taken.
pub open spec fn pack(ps: Seq<Seq<char>>, size: int) -> (Seq<Seq<char>>, Seq<char>)
    decreases ps.len(),
{
    if ps.len() == 0 {
        (Seq::empty(), Seq::empty())
    } else {
        pack_step(pack(ps.drop_last(), size), ps.last(), size)
    }
}

/// The chunks of a text whose paragraphs are gathered up to `size` words.
pub open spec fn paragraph_chunks(text: Seq<char>, size: int) -> Seq<Seq<char>> {
    let (closed, filling) = pack(paragraphs(text), size);
    if filling.len() > 0 {
        closed.push(trim(filling))
    } else {
        closed
    }
}

/// Where the window `before` is full, `next` begins with the last `overlap`
/// words of it, as far as `next` reaches: with all of them if `next` holds
/// `overlap` words or more.
pub open spec fn follows(
    before: Seq<Seq<char>>,
    next: Seq<Seq<char>>,
    size: int,
    overlap: int,
) -> bool {
    before.len() == size ==> {
        let shared = if next.len() < overlap {
            next.len() as int
        } else {
            overlap
        };
        next.take(shared) == before.skip(size - overlap).take(shared)
    }
}

/// A window after a full one is full itself or reaches the end of the
/// words; after a window that is not full none is full.
pub open spec fn full_first(before: Seq<Seq<char>>, next: Seq<Seq<char>>, size: int) -> bool {
    next.len() == size ==> before.len() == size
}

/// The shape of the windows from `start` on: the window at position `k`
/// begins `k` times `size - overlap` words after `start`; none is empty or
/// holds more than `size` words; each after the first follows the one
/// before it; the full windows come first; and the last window ends where
/// the words end.
pub proof fn lemma_windows_from(words: Seq<Seq<char>>, size: int, overlap: int, start: int)
    requires
        0 <= overlap < size,
        0 <= start,
    ensures
        ({
            let ws = windows_from(words, size, overlap, start);
            &&& (start < words.len()) == (ws.len() > 0)
            &&& forall|k: int|
                0 <= k < ws.len() ==> #[trigger] ws[k] == window_at(
                    words,
                    size,
                    start + k * (size - overlap),
                )
            &&& forall|k: int| 0 <= k < ws.len() ==> 0 < (#[trigger] ws[k]).len() <= size
            &&& forall|k: int|
                1 <= k < ws.len() ==> follows(ws[k - 1], #[trigger] ws[k], size, overlap)
            &&& forall|k: int| 1 <= k < ws.len() ==> full_first(ws[k - 1], #[trigger] ws[k], size)
            &&& ws.len() > 0 ==> ws.last() == words.skip(words.len() - ws.last().len())
        }),
    decreases words.len() - start + size,
{
    let ws = windows_from(words, size, overlap, start);
    if start < words.len() {
        let step = size - overlap;
        let next = start + step;
        let rest = windows_from(words, size, overlap, next);
        lemma_windows_from(words, size, overlap, next);
        let first = window_at(words, size, start);
        assert(ws == seq![first] + rest);
        assert(ws[0] == first);
        assert(start + 0 * step == start) by (nonlinear_arith);
        assert forall|k: int| 0 <= k < ws.len() implies #[trigger] ws[k] == window_at(
            words,
            size,
            start + k * (size - overlap),
        ) by {
            if k > 0 {
                assert(ws[k] == rest[k - 1]);
                assert(next + (k - 1) * step == start + k * step) by (nonlinear_arith)
                    requires
                        next == start + step,
                ;
            }
        }
        assert forall|k: int| 0 <= k < ws.len() implies 0 < (#[trigger] ws[k]).len() <= size by {
            if k > 0 {
                assert(ws[k] == rest[k - 1]);
            }
        }
        assert forall|k: int| 1 <= k < ws.len() implies follows(
            ws[k - 1],
            #[trigger] ws[k],
            size,
            overlap,
        ) by {
            assert(ws[k] == rest[k - 1]);
            if k == 1 {
                assert(rest[0] == window_at(words, size, next));
                if first.len() == size {
                    let shared = if ws[1].len() < overlap {
                        ws[1].len() as int
                    } else {
                        overlap
                    };
                    assert(ws[1].take(shared) =~= first.skip(size - overlap).take(shared));
                }
            } else {
                assert(ws[k - 1] == rest[k - 2]);
            }
        }
        assert forall|k: int| 1 <= k < ws.len() implies full_first(
            ws[k - 1],
            #[trigger] ws[k],
            size,
        ) by {
            assert(ws[k] == rest[k - 1]);
            if k == 1 {
                assert(rest[0] == window_at(words, size, next));
            } else {
                assert(ws[k - 1] == rest[k - 2]);
            }
        }
        if rest.len() > 0 {
            assert(ws.last() == rest.last());
        } else {
            assert(ws.last() == first);
            assert(next >= words.len());
            assert(first =~= words.skip(words.len() - first.len()));
        }
    } else {
        assert(ws.len() == 0);
    }
}

/// Every window is a run of the words it is cut from.
pub proof fn lemma_windows_hold_words(words: Seq<Seq<char>>, size: int, overlap: int, start: int)
    requires
        all_words(words),
        0 <= start,
    ensures
        forall|k: int|
            0 <= k < windows_from(words, size, overlap, start).len() ==> all_words(
                #[trigger] windows_from(words, size, overlap, start)[k],
            ),
    decreases words.len() - start + size,
{
    let ws = windows_from(words, size, overlap, start);
    if !(start >= words.len() || overlap < 0 || overlap >= size) {
        let first = window_at(words, size, start);
        assert forall|i: int| 0 <= i < first.len() implies is_word(#[trigger] first[i]) by {
            assert(first[i] == words[start + i]);
        }
        let rest = windows_from(words, size, overlap, start + size - overlap);
        lemma_windows_hold_words(words, size, overlap, start + size - overlap);
        assert forall|k: int| 0 <= k < ws.len() implies all_words(#[trigger] ws[k]) by {
            if k > 0 {
                assert(ws[k] == rest[k - 1]);
            }
        }
    }
}

/// The chunks of a text cut into windows. There is one unless the text
/// holds no word. Each holds at least one word and at most `size`. Each
/// after the first follows the one before it: where that one holds `size`
/// words, the chunk begins with the last `overlap` words of it, as far as
/// the chunk reaches. The chunks of `size` words come first.
pub proof fn lemma_window_chunks(text: Seq<char>, size: int, overlap: int)
    requires
        0 <= overlap < size,
    ensures
        ({
            let chunks = window_chunks(text, size, overlap);
            &&& (tokens(text).len() > 0) == (chunks.len() > 0)
            &&& forall|k: int|
                0 <= k < chunks.len() ==> 0 < tokens(#[trigger] chunks[k]).len() <= size
            &&& forall|k: int|
                1 <= k < chunks.len() ==> follows(
                    tokens(chunks[k - 1]),
                    tokens(#[trigger] chunks[k]),
                    size,
                    overlap,
                )
            &&& forall|k: int|
                1 <= k < chunks.len() ==> full_first(
                    tokens(chunks[k - 1]),
                    tokens(#[trigger] chunks[k]),
                    size,
                )
        }),
{
    let words = tokens(text);
    let ws = windows(words, size, overlap);
    let chunks = window_chunks(text, size, overlap);
    lemma_tokens_are_words(text);
    lemma_windows_from(words, size, overlap, 0);
    lemma_windows_hold_words(words, size, overlap, 0);
    assert forall|k: int| 0 <= k < chunks.len() implies tokens(#[trigger] chunks[k]) == ws[k] by {
        lemma_tokens_of_join(ws[k]);
    }
    assert forall|k: int| 1 <= k < chunks.len() implies follows(
        tokens(chunks[k - 1]),
        tokens(#[trigger] chunks[k]),
        size,
        overlap,
    ) by {
        assert(tokens(chunks[k]) == ws[k]);
        assert(tokens(chunks[k - 1]) == ws[k - 1]);
    }
    assert forall|k: int| 1 <= k < chunks.len() implies full_first(
        tokens(chunks[k - 1]),
        tokens(#[trigger] chunks[k]),
        size,
    ) by {
        assert(tokens(chunks[k]) == ws[k]);
        assert(tokens(chunks[k - 1]) == ws[k - 1]);
    }
}

/// None of the pieces is white space only.
pub open spec fn none_blank(ps: Seq<Seq<char>>) -> bool {
    forall|i: int| 0 <= i < ps.len() ==> !is_blank(#[trigger] ps[i])
}

/// The chunk holds a word, and either no more than `size` words or just
/// one of the paragraphs.
pub open spec fn well_filled(c: Seq<char>, ps: Seq<Seq<char>>, size: int) -> bool {
    &&& tokens(c).len() > 0
    &&& tokens(c).len() <= size || exists|i: int| 0 <= i < ps.len() && c == trim(#[trigger] ps[i])
}

/// What is left after the blank pieces are dropped holds no blank piece.
pub proof fn lemma_drop_blank(ps: Seq<Seq<char>>)
    ensures
        none_blank(drop_blank(ps)),
    decreases ps.len(),
{
    if ps.len() > 0 {
        lemma_drop_blank(ps.drop_last());
    }
}

/// While paragraphs are gathered, every closed chunk is well filled, and
/// the chunk being filled holds a word and either no more than `size`
/// words or just one paragraph as it stands.
pub proof fn lemma_pack(ps: Seq<Seq<char>>, size: int)
    requires
        none_blank(ps),
    ensures
        ({
            let (closed, filling) = pack(ps, size);
            &&& (ps.len() > 0) == (filling.len() > 0)
            &&& filling.len() > 0 ==> tokens(filling).len() > 0
            &&& filling.len() > 0 ==> tokens(filling).len() <= size || exists|i: int|
                0 <= i < ps.len() && filling == #[trigger] ps[i]
            &&& forall|k: int| 0 <= k < closed.len() ==> well_filled(#[trigger] closed[k], ps, size)
        }),
    decreases ps.len(),
{
    if ps.len() > 0 {
        let head = ps.drop_last();
        let p = ps.last();
        assert(none_blank(head)) by {
            assert forall|i: int| 0 <= i < head.len() implies !is_blank(#[trigger] head[i]) by {
                assert(head[i] == ps[i]);
            }
        }
        lemma_pack(head, size);
        let (closed, filling) = pack(head, size);
        let (closed2, filling2) = pack(ps, size);
        assert(p == ps[ps.len() - 1]);
        lemma_no_tokens(p);
        assert(p.len() > 0);
        assert forall|k: int| 0 <= k < closed.len() implies well_filled(
            #[trigger] closed[k],
            ps,
            size,
        ) by {
            assert(well_filled(closed[k], head, size));
            if tokens(closed[k]).len() > size {
                let i = choose|i: int| 0 <= i < head.len() && closed[k] == trim(#[trigger] head[i]);
                assert(closed[k] == trim(ps[i]));
            }
        }
        if tokens(filling).len() + tokens(p).len() > size {
            assert(filling2 == ps[ps.len() - 1]);
            if filling.len() > 0 {
                lemma_tokens_trim(filling);
                if tokens(filling).len() > size {
                    let i = choose|i: int| 0 <= i < head.len() && filling == #[trigger] head[i];
                    assert(trim(filling) == trim(ps[i]));
                }
                assert(well_filled(trim(filling), ps, size));
                assert forall|k: int| 0 <= k < closed2.len() implies well_filled(
                    #[trigger] closed2[k],
                    ps,
                    size,
                ) by {
                    if k < closed.len() {
                        assert(closed2[k] == closed[k]);
                    }
                }
            }
        } else {
            if filling.len() > 0 {
                lemma_tokens_parted(filling, blank_line(), p);
            } else {
                assert(filling2 == ps[ps.len() - 1]);
            }
        }
    }
}

/// The chunks of gathered paragraphs: each holds at least one word, and
/// each holds no more than `size` words unless it is one paragraph alone,
/// which stays whole however long it is.
pub proof fn lemma_paragraph_chunks(text: Seq<char>, size: int)
    ensures
        forall|k: int|
            0 <= k < paragraph_chunks(text, size).len() ==> well_filled(
                #[trigger] paragraph_chunks(text, size)[k],
                paragraphs(text),
                size,
            ),
{
    let ps = paragraphs(text);
    lemma_drop_blank(split_on(text, blank_line()));
    lemma_pack(ps, size);
    let (closed, filling) = pack(ps, size);
    let chunks = paragraph_chunks(text, size);
    if filling.len() > 0 {
        lemma_tokens_trim(filling);
        if tokens(filling).len() > size {
            let i = choose|i: int| 0 <= i < ps.len() && filling == #[trigger] ps[i];
            assert(trim(filling) == trim(ps[i]));
        }
        assert(well_filled(trim(filling), ps, size));
    }
    assert forall|k: int| 0 <= k < chunks.len() implies well_filled(
        #[trigger] chunks[k],
        ps,
        size,
    ) by {
        if k < closed.len() {
            assert(chunks[k] == closed[k]);
        }
    }
}

/// Dropping the blank pieces drops no word.
pub proof fn lemma_drop_blank_keeps_tokens(ps: Seq<Seq<char>>)
    ensures
        all_tokens(drop_blank(ps)) == all_tokens(ps),
    decreases ps.len(),
{
    if ps.len() > 0 {
        lemma_drop_blank_keeps_tokens(ps.drop_last());
        lemma_no_tokens(ps.last());
        let kept = drop_blank(ps.drop_last());
        if is_blank(ps.last()) {
            assert(all_tokens(ps.drop_last()) + tokens(ps.last()) == all_tokens(ps.drop_last()));
        } else {
            assert(kept.push(ps.last()).drop_last() == kept);
        }
    }
}

/// While paragraphs are gathered, the words of the closed chunks and then
/// of the chunk being filled are the words of the paragraphs taken so far.
pub proof fn lemma_pack_keeps_tokens(ps: Seq<Seq<char>>, size: int)
    ensures
        all_tokens(pack(ps, size).0) + tokens(pack(ps, size).1) == all_tokens(ps),
    decreases ps.len(),
{
    if ps.len() == 0 {
        assert(all_tokens(pack(ps, size).0) + tokens(pack(ps, size).1) == all_tokens(ps));
    } else {
        let head = ps.drop_last();
        let p = ps.last();
        lemma_pack_keeps_tokens(head, size);
        let (closed, filling) = pack(head, size);
        let before = all_tokens(closed);
        if tokens(filling).len() + tokens(p).len() > size {
            if filling.len() > 0 {
                lemma_tokens_trim(filling);
                assert(closed.push(trim(filling)).drop_last() == closed);
            } else {
                assert(before + tokens(filling) == before);
            }
        } else {
            if filling.len() > 0 {
                lemma_tokens_parted(filling, blank_line(), p);
                assert(before + (tokens(filling) + tokens(p)) == before + tokens(filling)
                    + tokens(p));
            } else {
                assert(before + tokens(filling) == before);
            }
        }
    }
}

/// Gathering paragraphs loses no word: the words of the chunks, in order,
/// are the words of the text.
pub proof fn lemma_paragraph_chunks_keep_tokens(text: Seq<char>, size: int)
    ensures
        all_tokens(paragraph_chunks(text, size)) == tokens(text),
{
    let pieces = split_on(text, blank_line());
    lemma_split_keeps_tokens(text, blank_line(), 0);
    assert(text.skip(0) == text);
    lemma_drop_blank_keeps_tokens(pieces);
    let ps = paragraphs(text);
    lemma_pack_keeps_tokens(ps, size);
    let (closed, filling) = pack(ps, size);
    if filling.len() > 0 {
        lemma_tokens_trim(filling);
        assert(closed.push(trim(filling)).drop_last() == closed);
    } else {
        assert(all_tokens(closed) + tokens(filling) == all_tokens(closed));
    }
}

/// Cuts documents into the pieces that are indexed one by one.
pub struct DocumentChunker {
    chunk_size: usize,
    chunk_overlap: usize,
}

impl DocumentChunker {
    /// The most words a window holds.
    pub closed spec fn chunk_size(&self) -> usize {
        self.chunk_size
    }

    /// The number of words that a window shares with the one before it.
    pub closed spec fn chunk_overlap(&self) -> usize {
        self.chunk_overlap
    }

    /// A chunker for chunks of `chunk_size` words.
    pub fn new(chunk_size: usize, chunk_overlap: usize) -> (r: Self)
        ensures
            r.chunk_size() == chunk_size,
            r.chunk_overlap() == chunk_overlap,
    {
        DocumentChunker { chunk_size, chunk_overlap }
    }

    /// Windows of `chunk_size` words, each beginning `chunk_size` less
    /// `chunk_overlap` words after the one before it, as long as a window
    /// begins before the end of the words.
    pub fn chunk_text(&self, text: &str) -> (r: Vec<String>)
        requires
            self.chunk_overlap() < self.chunk_size(),
        ensures
            strings_of(r@) == window_chunks(
                text@,
                self.chunk_size() as int,
                self.chunk_overlap() as int,
            ),
    {
        let chars = chars_of(text);
        let words = split_whitespace(&chars);
        let sep: Vec<char> = vec![' '];
        assert(sep@ == seq![' ']);
        let mut chunks: Vec<String> = Vec::new();
        let n: usize = words.len();
        let step: usize = self.chunk_size - self.chunk_overlap;
        let mut start: usize = 0;
        let ghost ws = views_of(words@);
        let ghost size = self.chunk_size as int;
        let ghost overlap = self.chunk_overlap as int;
        while start < n
            invariant
                n == words.len(),
                ws == views_of(words@),
                ws == tokens(text@),
                sep@ == seq![' '],
                size == self.chunk_size,
                overlap == self.chunk_overlap,
                0 <= overlap < size,
                step == size - overlap,
                start <= n,
                window_chunks(text@, size, overlap) == strings_of(chunks@) + joined(
                    windows_from(ws, size, overlap, start as int),
                ),
            decreases n - start,
        {
            let ghost before = strings_of(chunks@);
            let ghost rest = windows_from(ws, size, overlap, start as int);
            let ghost next = windows_from(ws, size, overlap, start + step);
            let end: usize = if self.chunk_size >= n - start {
                n
            } else {
                start + self.chunk_size
            };
            let piece = join_range(&words, start, end, &sep);
            chunks.push(string_of(&piece));
            proof {
                assert(strings_of(chunks@) =~= before.push(piece@));
                assert(rest == seq![window_at(ws, size, start as int)] + next);
                assert(joined(rest) =~= seq![piece@] + joined(next));
            }
            if step >= n - start {
                assert(next.len() == 0);
                start = n;
            } else {
                start = start + step;
            }
            assert(window_chunks(text@, size, overlap) =~= strings_of(chunks@) + joined(
                windows_from(ws, size, overlap, start as int),
            ));
        }
        assert(joined(windows_from(ws, size, overlap, start as int)) =~= Seq::empty());
        chunks
    }

    /// The paragraphs of `text`, as `paragraphs` defines them.
    pub fn split_paragraphs(text: &Vec<char>) -> (r: Vec<Vec<char>>)
        ensures
            views_of(r@) == paragraphs(text@),
    {
        let sep: Vec<char> = vec!['\n', '\n'];
        assert(sep@ == blank_line());
        let mut pieces = split_by(text, &sep);
        let ghost all = views_of(pieces@);
        let mut out: Vec<Vec<char>> = Vec::new();
        let mut i: usize = 0;
        while i < pieces.len()
            invariant
                i <= pieces.len(),
                all == views_of(pieces@),
                views_of(out@) == drop_blank(all.take(i as int)),
            decreases pieces.len() - i,
        {
            let ghost before = views_of(out@);
            assert(all.take(i + 1).drop_last() == all.take(i as int));
            if !is_blank_chars(&pieces[i]) {
                out.push(pieces[i].clone());
                assert(views_of(out@) =~= before.push(all[i as int]));
            }
            i += 1;
        }
        assert(all.take(pieces.len() as int) == all);
        out
    }

    /// The chunks of `text`, as `paragraph_chunks` defines them.
    pub fn chunk_paragraphs_of(&self, text: &Vec<char>) -> (r: Vec<Vec<char>>)
        ensures
            views_of(r@) == paragraph_chunks(text@, self.chunk_size() as int),
    {
        let paras = Self::split_paragraphs(text);
        let sep: Vec<char> = vec!['\n', '\n'];
        assert(sep@ == blank_line());
        let ghost ps = views_of(paras@);
        let ghost size = self.chunk_size as int;
        let mut closed: Vec<Vec<char>> = Vec::new();
        let mut filling: Vec<char> = Vec::new();
        let mut i: usize = 0;
        while i < paras.len()
            invariant
                i <= paras.len(),
                ps == views_of(paras@),
                size == self.chunk_size,
                sep@ == blank_line(),
                (views_of(closed@), filling@) == pack(ps.take(i as int), size),
            decreases paras.len() - i,
        {
            let ghost before = views_of(closed@);
            assert(ps.take(i + 1).drop_last() == ps.take(i as int));
            let held: usize = count_words(&filling);
            let more: usize = count_words(&paras[i]);
            if held > self.chunk_size || more > self.chunk_size - held {
                if filling.len() > 0 {
                    closed.push(trim_chars(&filling));
                    assert(views_of(closed@) =~= before.push(trim(filling@)));
                }
                filling = paras[i].clone();
            } else {
                if filling.len() > 0 {
                    append(&mut filling, &sep);
                }
                append(&mut filling, &paras[i]);
            }
            i += 1;
        }
        assert(ps.take(paras.len() as int) == ps);
        if filling.len() > 0 {
            let ghost before = views_of(closed@);
            closed.push(trim_chars(&filling));
            assert(views_of(closed@) =~= before.push(trim(filling@)));
        }
        closed
    }

    /// Paragraphs gathered into chunks of up to `chunk_size` words. A
    /// paragraph that alone holds more words stays whole.
    pub fn chunk_by_paragraphs(&self, text: &str) -> (r: Vec<String>)
        ensures
            strings_of(r@) == paragraph_chunks(text@, self.chunk_size() as int),
    {
        let chars = chars_of(text);
        let chunks = self.chunk_paragraphs_of(&chars);
        let mut out: Vec<String> = Vec::new();
        let mut i: usize = 0;
        while i < chunks.len()
            invariant
                i <= chunks.len(),
                strings_of(out@) == views_of(chunks@).take(i as int),
            decreases chunks.len() - i,
        {
            let ghost before = strings_of(out@);
            out.push(string_of(&chunks[i]));
            assert(strings_of(out@) =~= before.push(chunks[i as int]@));
            i += 1;
        }
        assert(views_of(chunks@).take(chunks.len() as int) == views_of(chunks@));
        out
    }
}

impl Default for DocumentChunker {
    /// Chunks of 500 words, 50 of them shared with the chunk before.
    fn default() -> (r: Self)
        ensures
            r.chunk_size() == 500,
            r.chunk_overlap() == 50,
    {
        DocumentChunker::new(500, 50)
    }
}

} // verus!
