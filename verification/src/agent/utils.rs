use crate::pattern::{find_from, find_in, find_in_from, lemma_find_from, lines, lines_of};
use crate::text::{chars_of, lowercase, same_chars, slice_of, string_of, to_lowercase, views_of};
use crate::words::{join, join_range, split_whitespace, tokens, trim, trim_chars};
use vstd::prelude::*;

verus! {

/// The most keywords taken from a text.
pub const MAX_KEYWORDS: usize = 5;

/// Words that say nothing about what a text is about.
pub open spec fn stop_words() -> Seq<Seq<char>> {
    seq![
        "的"@,
        "了"@,
        "在"@,
        "是"@,
        "我"@,
        "有"@,
        "和"@,
        "就"@,
        "不"@,
        "人"@,
        "都"@,
        "一"@,
        "一个"@,
        "上"@,
        "也"@,
        "很"@,
        "到"@,
        "说"@,
        "要"@,
        "去"@,
        "你"@,
        "会"@,
        "着"@,
        "没有"@,
        "看"@,
        "好"@,
        "自己"@,
        "这"@,
        "the"@,
        "a"@,
        "an"@,
        "is"@,
        "are"@,
        "was"@,
        "were"@,
        "be"@,
        "been"@,
        "being"@,
        "have"@,
        "has"@,
        "had"@,
        "do"@,
        "does"@,
        "did"@,
        "will"@,
        "would"@,
        "should"@,
        "could"@,
    ]
}

/// `w` is one of `words`.
pub open spec fn among(words: Seq<Seq<char>>, w: Seq<char>) -> bool {
    exists|i: int| 0 <= i < words.len() && words[i] == w
}

/// A word that may serve as a keyword: longer than one character, and no
/// stop word in whatever case it is written.
pub open spec fn is_keyword(w: Seq<char>) -> bool {
    w.len() > 1 && !among(stop_words(), lowercase(w))
}

/// The words that may serve as keywords, in order.
pub open spec fn keep_keywords(ws: Seq<Seq<char>>) -> Seq<Seq<char>>
    decreases ws.len(),
{
    if ws.len() == 0 {
        ws
    } else if is_keyword(ws.last()) {
        keep_keywords(ws.drop_last()).push(ws.last())
    } else {
        keep_keywords(ws.drop_last())
    }
}

/// The first `n` of `ws`, or all of them if there are fewer.
pub open spec fn first_few(ws: Seq<Seq<char>>, n: int) -> Seq<Seq<char>> {
    if n < ws.len() {
        ws.take(n)
    } else {
        ws
    }
}

/// The first five keywords of a text, parted by single blanks.
pub open spec fn keywords(text: Seq<char>) -> Seq<char> {
    join(first_few(keep_keywords(tokens(text)), MAX_KEYWORDS as int), seq![' '])
}

/// The mark that opens and closes a block of code.
pub open spec fn fence() -> Seq<char> {
    seq!['`', '`', '`']
}

/// All but the first of `ls`.
pub open spec fn rest_of(ls: Seq<Seq<char>>) -> Seq<Seq<char>> {
    if ls.len() == 0 {
        ls
    } else {
        ls.drop_first()
    }
}

/// The body of a block that stood between two fences: its lines without
/// the first, which names the language, and without white space at the ends.
pub open spec fn block_body(block: Seq<char>) -> Seq<char> {
    trim(join(rest_of(lines(block)), seq!['\n']))
}

/// The body of the first fenced block of code in a text, if there is a
/// first fence and a second one behind it.
pub open spec fn code_block(text: Seq<char>) -> Option<Seq<char>> {
    match find_from(text, fence(), 0) {
        Some(start) => match find_from(text, fence(), start + 3) {
            Some(end) => if 0 <= start && start + 3 <= end <= text.len() {
                Some(block_body(text.subrange(start + 3, end)))
            } else {
                None
            },
            None => None,
        },
        None => None,
    }
}

/// The stop words.
pub fn stop_word_list() -> (r: Vec<Vec<char>>)
    ensures
        views_of(r@) == stop_words(),
{
    let mut v: Vec<Vec<char>> = Vec::new();
    v.push(chars_of("的"));
    v.push(chars_of("了"));
    v.push(chars_of("在"));
    v.push(chars_of("是"));
    v.push(chars_of("我"));
    v.push(chars_of("有"));
    v.push(chars_of("和"));
    v.push(chars_of("就"));
    v.push(chars_of("不"));
    v.push(chars_of("人"));
    v.push(chars_of("都"));
    v.push(chars_of("一"));
    v.push(chars_of("一个"));
    v.push(chars_of("上"));
    v.push(chars_of("也"));
    v.push(chars_of("很"));
    v.push(chars_of("到"));
    v.push(chars_of("说"));
    v.push(chars_of("要"));
    v.push(chars_of("去"));
    v.push(chars_of("你"));
    v.push(chars_of("会"));
    v.push(chars_of("着"));
    v.push(chars_of("没有"));
    v.push(chars_of("看"));
    v.push(chars_of("好"));
    v.push(chars_of("自己"));
    v.push(chars_of("这"));
    v.push(chars_of("the"));
    v.push(chars_of("a"));
    v.push(chars_of("an"));
    v.push(chars_of("is"));
    v.push(chars_of("are"));
    v.push(chars_of("was"));
    v.push(chars_of("were"));
    v.push(chars_of("be"));
    v.push(chars_of("been"));
    v.push(chars_of("being"));
    v.push(chars_of("have"));
    v.push(chars_of("has"));
    v.push(chars_of("had"));
    v.push(chars_of("do"));
    v.push(chars_of("does"));
    v.push(chars_of("did"));
    v.push(chars_of("will"));
    v.push(chars_of("would"));
    v.push(chars_of("should"));
    v.push(chars_of("could"));
    assert(views_of(v@) =~= stop_words());
    v
}

/// Whether `w` is one of `words`.
pub fn is_among(words: &Vec<Vec<char>>, w: &Vec<char>) -> (r: bool)
    ensures
        r == among(views_of(words@), w@),
{
    let mut i: usize = 0;
    while i < words.len()
        invariant
            i <= words.len(),
            forall|j: int| 0 <= j < i ==> views_of(words@)[j] != w@,
        decreases words.len() - i,
    {
        if same_chars(&words[i], w) {
            assert(views_of(words@)[i as int] == w@);
            return true;
        }
        i += 1;
    }
    false
}

/// The first five keywords of `text`, parted by single blanks.
pub fn extract_keywords(text: &str) -> (r: String)
    ensures
        r@ == keywords(text@),
{
    let chars = chars_of(text);
    let words = split_whitespace(&chars);
    let stops = stop_word_list();
    let ghost ws = tokens(text@);
    let mut kept: Vec<Vec<char>> = Vec::new();
    let mut i: usize = 0;
    while i < words.len() && kept.len() < MAX_KEYWORDS
        invariant
            i <= words.len(),
            ws == views_of(words@),
            views_of(stops@) == stop_words(),
            views_of(kept@) == keep_keywords(ws.take(i as int)),
            kept.len() <= MAX_KEYWORDS,
        decreases words.len() - i,
    {
        let ghost before = views_of(kept@);
        assert(ws.take(i + 1).drop_last() == ws.take(i as int));
        if words[i].len() > 1 {
            let lower = to_lowercase(&words[i]);
            if !is_among(&stops, &lower) {
                kept.push(words[i].clone());
                assert(views_of(kept@) =~= before.push(ws[i as int]));
            }
        }
        i += 1;
    }
    proof {
        lemma_keep_keywords_prefix(ws, i as int);
        let all = keep_keywords(ws);
        assert(views_of(kept@).subrange(0, kept.len() as int) == views_of(kept@));
        if i == words.len() {
            assert(ws.take(i as int) == ws);
        } else {
            assert(all.take(all.len() as int) == all);
        }
        assert(views_of(kept@) == first_few(all, MAX_KEYWORDS as int));
    }
    let sep: Vec<char> = vec![' '];
    assert(sep@ == seq![' ']);
    let joined = join_range(&kept, 0, kept.len(), &sep);
    string_of(&joined)
}

/// The keywords kept from a prefix of the words are a prefix of those kept
/// from all of them.
pub proof fn lemma_keep_keywords_prefix(ws: Seq<Seq<char>>, k: int)
    requires
        0 <= k <= ws.len(),
    ensures
        keep_keywords(ws.take(k)).len() <= keep_keywords(ws).len(),
        keep_keywords(ws.take(k)) == keep_keywords(ws).take(keep_keywords(ws.take(k)).len() as int),
    decreases ws.len(),
{
    if k == ws.len() {
        assert(ws.take(k) == ws);
        assert(keep_keywords(ws).take(keep_keywords(ws).len() as int) == keep_keywords(ws));
    } else {
        assert(ws.drop_last().take(k) == ws.take(k));
        lemma_keep_keywords_prefix(ws.drop_last(), k);
        let part = keep_keywords(ws.take(k));
        let most = keep_keywords(ws.drop_last());
        if is_keyword(ws.last()) {
            assert(most.push(ws.last()).take(part.len() as int) == most.take(part.len() as int));
        }
    }
}

/// The query that an instruction is searched by: its keywords.
pub fn extract_search_query(instruction: &str) -> (r: String)
    ensures
        r@ == keywords(instruction@),
{
    extract_keywords(instruction)
}

/// The body of a block that stood between two fences.
pub fn body_of_block(block: &Vec<char>) -> (r: Vec<char>)
    ensures
        r@ == block_body(block@),
{
    let ls = lines_of(block);
    let sep: Vec<char> = vec!['\n'];
    assert(sep@ == seq!['\n']);
    let from: usize = if ls.len() == 0 {
        0
    } else {
        1
    };
    assert(views_of(ls@).subrange(from as int, ls.len() as int) == rest_of(lines(block@)));
    let joined = join_range(&ls, from, ls.len(), &sep);
    trim_chars(&joined)
}

/// The body of the first fenced block of code in `text`.
pub fn extract_code_block(text: &str) -> (r: Option<String>)
    ensures
        match r {
            Some(code) => code_block(text@) == Some(code@),
            None => code_block(text@) is None,
        },
{
    let chars = chars_of(text);
    let mark: Vec<char> = vec!['`', '`', '`'];
    assert(mark@ == fence());
    proof {
        lemma_find_from(chars@, mark@, 0);
    }
    let start = match find_in(&chars, &mark) {
        Some(start) => start,
        None => {
            return None;
        },
    };
    assert(start + 3 <= chars.len());
    proof {
        lemma_find_from(chars@, mark@, start + 3);
    }
    let end = match find_in_from(&chars, &mark, start + 3) {
        Some(end) => end,
        None => {
            return None;
        },
    };
    let block = slice_of(&chars, start + 3, end);
    let body = body_of_block(&block);
    Some(string_of(&body))
}

} // verus!
