use crate::text::{
    char_is_alphanumeric, chars_of, is_alphanumeric, lowercase, string_of, strings_of,
    to_lowercase,
};
use crate::vault::StoreError;
use crate::words::{split_whitespace, tokens};
use vstd::prelude::*;

verus! {

/// The most terms a feature vector keeps.
pub const MAX_TERMS: usize = 100;

/// The most terms a text may hold for its features to be taken.
pub const MAX_TEXT_TERMS: usize = 0xffff_ffff;

/// The letters and digits of `w`, in order.
pub open spec fn letters_and_digits(w: Seq<char>) -> Seq<char>
    decreases w.len(),
{
    if w.len() == 0 {
        w
    } else if is_alphanumeric(w.last()) {
        letters_and_digits(w.drop_last()).push(w.last())
    } else {
        letters_and_digits(w.drop_last())
    }
}

/// The words reduced to their letters and digits, without those that
/// hold none.
pub open spec fn cleaned(words: Seq<Seq<char>>) -> Seq<Seq<char>>
    decreases words.len(),
{
    if words.len() == 0 {
        words
    } else if letters_and_digits(words.last()).len() == 0 {
        cleaned(words.drop_last())
    } else {
        cleaned(words.drop_last()).push(letters_and_digits(words.last()))
    }
}

/// The terms of a text: its words in lower case, reduced to letters and digits.
pub open spec fn terms(text: Seq<char>) -> Seq<Seq<char>> {
    cleaned(tokens(lowercase(text)))
}

/// The first position at or after `k` that holds the term `t`; the length
/// if there is none.
pub open spec fn locate(e: Seq<(Seq<char>, nat)>, t: Seq<char>, k: int) -> int
    decreases e.len() - k + 1,
{
    if k < 0 || k >= e.len() {
        e.len() as int
    } else if e[k].0 == t {
        k
    } else {
        locate(e, t, k + 1)
    }
}

/// Counts one more occurrence of `t`: a term seen before gains one, a new
/// term goes to the end with a count of one.
pub open spec fn bump(e: Seq<(Seq<char>, nat)>, t: Seq<char>) -> Seq<(Seq<char>, nat)> {
    let i = locate(e, t, 0);
    if i < e.len() {
        e.update(i, (t, e[i].1 + 1))
    } else {
        e.push((t, 1))
    }
}

/// Each distinct term with the number of its occurrences, in the order in
/// which the terms first occur.
pub open spec fn tally(ts: Seq<Seq<char>>) -> Seq<(Seq<char>, nat)>
    decreases ts.len(),
{
    if ts.len() == 0 {
        Seq::empty()
    } else {
        bump(tally(ts.drop_last()), ts.last())
    }
}

/// The first position at or after `k` whose count is below `c`; the length
/// if there is none.
pub open spec fn slot(e: Seq<(Seq<char>, nat)>, c: nat, k: int) -> int
    decreases e.len() - k + 1,
{
    if k < 0 || k >= e.len() {
        e.len() as int
    } else if e[k].1 < c {
        k
    } else {
        slot(e, c, k + 1)
    }
}

/// The entries by falling count; among equal counts the earlier entry
/// stays first.
pub open spec fn ranked(e: Seq<(Seq<char>, nat)>) -> Seq<(Seq<char>, nat)>
    decreases e.len(),
{
    if e.len() == 0 {
        e
    } else {
        let r = ranked(e.drop_last());
        r.insert(slot(r, e.last().1, 0), e.last())
    }
}

/// The first `k` entries, or all of them if there are fewer.
pub open spec fn top(e: Seq<(Seq<char>, nat)>, k: int) -> Seq<(Seq<char>, nat)> {
    if k < e.len() {
        e.take(k)
    } else {
        e
    }
}

/// The features of a text: its hundred most frequent terms with their counts.
pub open spec fn features_of(text: Seq<char>) -> Seq<(Seq<char>, nat)> {
    top(ranked(tally(terms(text))), MAX_TERMS as int)
}

/// The sum of the counts.
pub open spec fn sum_counts(e: Seq<(Seq<char>, nat)>) -> nat
    decreases e.len(),
{
    if e.len() == 0 {
        0
    } else {
        sum_counts(e.drop_last()) + e.last().1
    }
}

/// The sum of the squares of the counts.
pub open spec fn sum_squares(e: Seq<(Seq<char>, nat)>) -> nat
    decreases e.len(),
{
    if e.len() == 0 {
        0
    } else {
        sum_squares(e.drop_last()) + e.last().1 * e.last().1
    }
}

/// No entry has a lower count than one behind it.
pub open spec fn falling(e: Seq<(Seq<char>, nat)>) -> bool {
    forall|i: int, j: int| 0 <= i < j < e.len() ==> e[i].1 >= e[j].1
}

/// Every count is at least one.
pub open spec fn all_positive(e: Seq<(Seq<char>, nat)>) -> bool {
    forall|i: int| 0 <= i < e.len() ==> (#[trigger] e[i]).1 >= 1
}

/// What `locate` gives: the first place at or after `k` that holds the
/// term, or the length where no place does.
pub proof fn lemma_locate(e: Seq<(Seq<char>, nat)>, t: Seq<char>, k: int)
    requires
        0 <= k,
    ensures
        k <= locate(e, t, k) || locate(e, t, k) == e.len(),
        locate(e, t, k) <= e.len(),
        locate(e, t, k) < e.len() ==> e[locate(e, t, k)].0 == t,
        forall|j: int| k <= j < locate(e, t, k) ==> e[j].0 != t,
    decreases e.len() - k + 1,
{
    if k < e.len() && e[k].0 != t {
        lemma_locate(e, t, k + 1);
    }
}

/// What `slot` gives: the first place at or after `k` whose count is
/// below `c`, or the length where no place has one.
pub proof fn lemma_slot(e: Seq<(Seq<char>, nat)>, c: nat, k: int)
    requires
        0 <= k <= e.len(),
    ensures
        k <= slot(e, c, k) <= e.len(),
        slot(e, c, k) < e.len() ==> e[slot(e, c, k)].1 < c,
        forall|j: int| k <= j < slot(e, c, k) ==> e[j].1 >= c,
    decreases e.len() - k + 1,
{
    if k < e.len() && e[k].1 >= c {
        lemma_slot(e, c, k + 1);
    }
}

/// How the sums change when one entry is replaced.
pub proof fn lemma_sum_counts_update(e: Seq<(Seq<char>, nat)>, i: int, x: (Seq<char>, nat))
    requires
        0 <= i < e.len(),
    ensures
        sum_counts(e.update(i, x)) + e[i].1 == sum_counts(e) + x.1,
        sum_squares(e.update(i, x)) + e[i].1 * e[i].1 == sum_squares(e) + x.1 * x.1,
    decreases e.len(),
{
    if i == e.len() - 1 {
        assert(e.update(i, x).drop_last() == e.drop_last());
    } else {
        assert(e.update(i, x).drop_last() == e.drop_last().update(i, x));
        lemma_sum_counts_update(e.drop_last(), i, x);
    }
}

/// How the sums change when an entry is put in.
pub proof fn lemma_sum_counts_insert(e: Seq<(Seq<char>, nat)>, i: int, x: (Seq<char>, nat))
    requires
        0 <= i <= e.len(),
    ensures
        sum_counts(e.insert(i, x)) == sum_counts(e) + x.1,
        sum_squares(e.insert(i, x)) == sum_squares(e) + x.1 * x.1,
    decreases e.len(),
{
    if i == e.len() {
        assert(e.insert(i, x) == e.push(x));
        assert(e.push(x).drop_last() == e);
    } else {
        assert(e.insert(i, x).drop_last() == e.drop_last().insert(i, x));
        assert(e.insert(i, x).last() == e.last());
        lemma_sum_counts_insert(e.drop_last(), i, x);
    }
}

/// The sums over the first entries are no more than over all.
pub proof fn lemma_sum_counts_take(e: Seq<(Seq<char>, nat)>, k: int)
    requires
        0 <= k <= e.len(),
    ensures
        sum_counts(e.take(k)) <= sum_counts(e),
        sum_squares(e.take(k)) <= sum_squares(e),
    decreases e.len(),
{
    if k == e.len() {
        assert(e.take(k) == e);
    } else {
        assert(e.drop_last().take(k) == e.take(k));
        lemma_sum_counts_take(e.drop_last(), k);
    }
}

/// No count is more than the sum of all.
pub proof fn lemma_count_le_sum(e: Seq<(Seq<char>, nat)>, i: int)
    requires
        0 <= i < e.len(),
    ensures
        e[i].1 <= sum_counts(e),
    decreases e.len(),
{
    if i < e.len() - 1 {
        lemma_count_le_sum(e.drop_last(), i);
    }
}

/// The squares of the counts sum to no more than the square of their sum.
pub proof fn lemma_sum_squares_le(e: Seq<(Seq<char>, nat)>)
    ensures
        sum_squares(e) <= sum_counts(e) * sum_counts(e),
    decreases e.len(),
{
    if e.len() > 0 {
        lemma_sum_squares_le(e.drop_last());
        let a = sum_counts(e.drop_last());
        let b = e.last().1;
        assert(a * a + b * b <= (a + b) * (a + b)) by (nonlinear_arith);
    }
}

/// A tally counts every term once: its counts sum to the number of terms.
pub proof fn lemma_tally_total(ts: Seq<Seq<char>>)
    ensures
        sum_counts(tally(ts)) == ts.len(),
    decreases ts.len(),
{
    if ts.len() > 0 {
        lemma_tally_total(ts.drop_last());
        let e = tally(ts.drop_last());
        let t = ts.last();
        lemma_locate(e, t, 0);
        let i = locate(e, t, 0);
        if i < e.len() {
            lemma_sum_counts_update(e, i, (t, e[i].1 + 1));
        } else {
            assert(e.push((t, 1nat)).drop_last() == e);
        }
    }
}

/// How often `t` stands among `ts`.
pub open spec fn occurrences(ts: Seq<Seq<char>>, t: Seq<char>) -> nat
    decreases ts.len(),
{
    if ts.len() == 0 {
        0
    } else {
        occurrences(ts.drop_last(), t) + if ts.last() == t {
            1nat
        } else {
            0nat
        }
    }
}

/// No term stands twice.
pub open spec fn distinct_terms(e: Seq<(Seq<char>, nat)>) -> bool {
    forall|i: int, j: int| 0 <= i < j < e.len() ==> e[i].0 != e[j].0
}

/// The count that `e` holds for the term `t`; zero if it holds none.
pub open spec fn count_of(e: Seq<(Seq<char>, nat)>, t: Seq<char>) -> nat {
    let i = locate(e, t, 0);
    if i < e.len() {
        e[i].1
    } else {
        0
    }
}

/// In a tally no term stands twice, and each term of the text stands in it
/// with the number of its occurrences.
pub proof fn lemma_tally_counts(ts: Seq<Seq<char>>)
    ensures
        distinct_terms(tally(ts)),
        forall|t: Seq<char>| count_of(tally(ts), t) == occurrences(ts, t),
    decreases ts.len(),
{
    if ts.len() > 0 {
        lemma_tally_counts(ts.drop_last());
        let e = tally(ts.drop_last());
        let x = ts.last();
        let p = locate(e, x, 0);
        lemma_locate(e, x, 0);
        let out = tally(ts);
        assert forall|t: Seq<char>| count_of(out, t) == occurrences(ts, t) by {
            lemma_locate(e, t, 0);
            let q = locate(e, t, 0);
            assert(count_of(e, t) == occurrences(ts.drop_last(), t));
            if t == x {
                lemma_locate_is(out, t, p);
            } else {
                if q < e.len() {
                    lemma_locate_is(out, t, q);
                } else {
                    lemma_locate_is(out, t, out.len() as int);
                }
            }
        }
    } else {
        assert forall|t: Seq<char>| count_of(tally(ts), t) == occurrences(ts, t) by {}
    }
}

/// The position that `locate` gives is the only one that holds the term
/// with none before it that does.
pub proof fn lemma_locate_is(e: Seq<(Seq<char>, nat)>, t: Seq<char>, p: int)
    requires
        0 <= p <= e.len(),
        p < e.len() ==> e[p].0 == t,
        forall|j: int| 0 <= j < p ==> e[j].0 != t,
    ensures
        locate(e, t, 0) == p,
{
    lemma_locate(e, t, 0);
}

/// A tally has an entry unless there is no term, and no count in it is zero.
pub proof fn lemma_tally_shape(ts: Seq<Seq<char>>)
    ensures
        (tally(ts).len() == 0) == (ts.len() == 0),
        all_positive(tally(ts)),
    decreases ts.len(),
{
    if ts.len() > 0 {
        lemma_tally_shape(ts.drop_last());
        lemma_locate(tally(ts.drop_last()), ts.last(), 0);
    }
}

/// Counts of which none is zero have squares that sum to more than zero,
/// unless there is no count at all.
pub proof fn lemma_sum_squares_positive(e: Seq<(Seq<char>, nat)>)
    requires
        all_positive(e),
        e.len() > 0,
    ensures
        sum_squares(e) > 0,
{
    let c = e.last().1;
    assert(c * c > 0) by (nonlinear_arith)
        requires
            c >= 1,
    ;
}

/// Ranking moves entries without changing them: the sums stay, and the
/// counts fall from first to last.
pub proof fn lemma_ranked(e: Seq<(Seq<char>, nat)>)
    ensures
        ranked(e).len() == e.len(),
        sum_counts(ranked(e)) == sum_counts(e),
        sum_squares(ranked(e)) == sum_squares(e),
        falling(ranked(e)),
        ranked(e).to_multiset() == e.to_multiset(),
        all_positive(e) ==> all_positive(ranked(e)),
    decreases e.len(),
{
    broadcast use vstd::seq_lib::group_to_multiset_ensures;

    if e.len() > 0 {
        lemma_ranked(e.drop_last());
        let r = ranked(e.drop_last());
        let x = e.last();
        lemma_slot(r, x.1, 0);
        let p = slot(r, x.1, 0);
        lemma_sum_counts_insert(r, p, x);
        r.insert_ensures(p, x);
        let out = r.insert(p, x);
        assert(falling(out)) by {
            assert forall|i: int, j: int| 0 <= i < j < out.len() implies out[i].1 >= out[j].1 by {
                if j < p {
                } else if j == p {
                } else if i < p {
                    assert(out[j] == r[j - 1]);
                    if p < r.len() {
                        assert(r[p].1 >= r[j - 1].1 || p == j - 1);
                    }
                } else if i == p {
                    assert(out[j] == r[j - 1]);
                    assert(r[p].1 >= r[j - 1].1 || p == j - 1);
                } else {
                    assert(out[i] == r[i - 1]);
                    assert(out[j] == r[j - 1]);
                }
            }
        }
        assert(out.to_multiset() == e.to_multiset()) by {
            assert(e == e.drop_last().push(x));
            vstd::seq_lib::to_multiset_insert(r, p, x);
        }
        if all_positive(e) {
            assert(all_positive(e.drop_last())) by {
                assert forall|i: int| 0 <= i < e.len() - 1 implies (#[trigger] e.drop_last()[i]).1
                    >= 1 by {
                    assert(e.drop_last()[i] == e[i]);
                }
            }
            assert forall|i: int| 0 <= i < out.len() implies (#[trigger] out[i]).1 >= 1 by {
                if i < p {
                    assert(out[i] == r[i]);
                } else if i == p {
                    assert(out[i] == e[e.len() - 1]);
                } else {
                    assert(out[i] == r[i - 1]);
                }
            }
        }
    }
}

/// Ranking keeps the terms: each entry of the ranked sequence stands in
/// the sequence that was ranked, and no term comes to stand twice.
pub proof fn lemma_ranked_distinct(e: Seq<(Seq<char>, nat)>)
    requires
        distinct_terms(e),
    ensures
        distinct_terms(ranked(e)),
        forall|i: int| 0 <= i < ranked(e).len() ==> locate(e, (#[trigger] ranked(e)[i]).0, 0) < e.len(),
    decreases e.len(),
{
    if e.len() > 0 {
        let head = e.drop_last();
        let x = e.last();
        assert(distinct_terms(head)) by {
            assert forall|i: int, j: int| 0 <= i < j < head.len() implies head[i].0
                != head[j].0 by {
                assert(head[i] == e[i] && head[j] == e[j]);
            }
        }
        lemma_ranked_distinct(head);
        lemma_ranked(head);
        let r = ranked(head);
        lemma_slot(r, x.1, 0);
        let p = slot(r, x.1, 0);
        r.insert_ensures(p, x);
        let out = r.insert(p, x);
        assert forall|i: int| 0 <= i < r.len() implies (#[trigger] r[i]).0 != x.0 && locate(
            e,
            r[i].0,
            0,
        ) < e.len() by {
            let t = r[i].0;
            lemma_locate(head, t, 0);
            let j = locate(head, t, 0);
            assert(head[j] == e[j]);
            assert(e[j].0 != e[e.len() - 1].0);
            lemma_locate(e, t, 0);
        }
        assert forall|i: int| 0 <= i < out.len() implies locate(e, (#[trigger] out[i]).0, 0)
            < e.len() by {
            if i < p {
                assert(out[i] == r[i]);
            } else if i == p {
                lemma_locate(e, x.0, 0);
                assert(e[e.len() - 1].0 == x.0);
            } else {
                assert(out[i] == r[i - 1]);
            }
        }
        assert forall|i: int, j: int| 0 <= i < j < out.len() implies out[i].0 != out[j].0 by {
            let a = if i < p {
                i
            } else {
                i - 1
            };
            let b = if j < p {
                j
            } else {
                j - 1
            };
            if i != p {
                assert(out[i] == r[a]);
            }
            if j != p {
                assert(out[j] == r[b]);
            }
        }
    }
}

/// The count of a term is no more than the sum of all counts.
pub proof fn lemma_count_of_le_sum(e: Seq<(Seq<char>, nat)>, t: Seq<char>)
    ensures
        count_of(e, t) <= sum_counts(e),
{
    lemma_locate(e, t, 0);
    if locate(e, t, 0) < e.len() {
        lemma_count_le_sum(e, locate(e, t, 0));
    }
}

/// Where no term stands twice, the count of the term at a position is the
/// count at that position.
pub proof fn lemma_count_of_own(e: Seq<(Seq<char>, nat)>, i: int)
    requires
        distinct_terms(e),
        0 <= i < e.len(),
    ensures
        count_of(e, e[i].0) == e[i].1,
{
    lemma_locate_is(e, e[i].0, i);
}

/// Taking an entry out changes the count of no other term.
pub proof fn lemma_count_of_remove(e: Seq<(Seq<char>, nat)>, p: int, t: Seq<char>)
    requires
        0 <= p < e.len(),
        e[p].0 != t,
    ensures
        count_of(e.remove(p), t) == count_of(e, t),
{
    lemma_locate(e, t, 0);
    e.remove_ensures(p);
    let q = locate(e, t, 0);
    let rest = e.remove(p);
    if q < p {
        assert(rest[q] == e[q]);
        assert forall|j: int| 0 <= j < q implies rest[j].0 != t by {
            assert(rest[j] == e[j]);
        }
        lemma_locate_is(rest, t, q);
    } else if q < e.len() {
        assert(rest[q - 1] == e[q]);
        assert forall|j: int| 0 <= j < q - 1 implies rest[j].0 != t by {
            if j < p {
                assert(rest[j] == e[j]);
            } else {
                assert(rest[j] == e[j + 1]);
            }
        }
        lemma_locate_is(rest, t, q - 1);
    } else {
        assert forall|j: int| 0 <= j < rest.len() implies rest[j].0 != t by {
            if j < p {
                assert(rest[j] == e[j]);
            } else {
                assert(rest[j] == e[j + 1]);
            }
        }
        lemma_locate_is(rest, t, rest.len() as int);
    }
}

/// Taking an entry out takes its count from the sums.
pub proof fn lemma_sum_counts_remove(e: Seq<(Seq<char>, nat)>, p: int)
    requires
        0 <= p < e.len(),
    ensures
        sum_counts(e.remove(p)) + e[p].1 == sum_counts(e),
        sum_squares(e.remove(p)) + e[p].1 * e[p].1 == sum_squares(e),
{
    e.remove_ensures(p);
    lemma_sum_counts_insert(e.remove(p), p, e[p]);
    assert(e.remove(p).insert(p, e[p]) =~= e);
}

/// The features of a text with at least one term: there is a feature, no
/// count is zero, and the squares of the counts sum to more than zero, so
/// that the squares of the weights, each the square of a count over that
/// sum, sum to exactly one.
pub proof fn lemma_features_normalized(text: Seq<char>)
    requires
        terms(text).len() > 0,
    ensures
        features_of(text).len() > 0,
        all_positive(features_of(text)),
        sum_squares(features_of(text)) > 0,
{
    lemma_features_shape(text);
    lemma_sum_squares_positive(features_of(text));
}

/// The features of a text: at most a hundred, none unless the text has a
/// term, no count zero, no term twice, and the counts sum to no more than
/// the number of terms.
pub proof fn lemma_features_shape(text: Seq<char>)
    ensures
        features_of(text).len() <= MAX_TERMS,
        (features_of(text).len() == 0) == (terms(text).len() == 0),
        all_positive(features_of(text)),
        falling(features_of(text)),
        distinct_terms(features_of(text)),
        sum_counts(features_of(text)) <= terms(text).len(),
{
    let counted = tally(terms(text));
    lemma_tally_shape(terms(text));
    lemma_tally_total(terms(text));
    lemma_tally_counts(terms(text));
    lemma_ranked(counted);
    lemma_ranked_distinct(counted);
    let all = ranked(counted);
    if MAX_TERMS < all.len() {
        lemma_sum_counts_take(all, MAX_TERMS as int);
    }
}

/// A term with the number of its occurrences.
pub struct TermWeight {
    pub term: String,
    pub count: u32,
}

/// The terms and counts that the entries hold.
pub open spec fn weights_of(v: Seq<TermWeight>) -> Seq<(Seq<char>, nat)> {
    Seq::new(v.len(), |i: int| (v[i].term@, v[i].count as nat))
}

/// The most frequent terms of a text, the most frequent first. The weight
/// of a term is its share of the terms of the text, scaled so that the
/// squares of the weights sum to one: its count divided by the square root
/// of `norm_squared`, the number of terms of the text falling out. Counts
/// are kept in place of weights, so that no rounding takes part in a
/// comparison.
pub struct FeatureVector {
    entries: Vec<TermWeight>,
    norm_sq: u64,
}

impl View for FeatureVector {
    type V = Seq<(Seq<char>, nat)>;

    closed spec fn view(&self) -> Seq<(Seq<char>, nat)> {
        weights_of(self.entries@)
    }
}

impl FeatureVector {
    #[verifier::type_invariant]
    spec fn inv(&self) -> bool {
        &&& self.entries.len() <= MAX_TERMS
        &&& sum_counts(weights_of(self.entries@)) <= MAX_TEXT_TERMS
        &&& self.norm_sq == sum_squares(weights_of(self.entries@))
        &&& all_positive(weights_of(self.entries@))
        &&& distinct_terms(weights_of(self.entries@))
    }

    /// What holds of every feature vector.
    pub open spec fn bounded(v: Seq<(Seq<char>, nat)>) -> bool {
        &&& v.len() <= MAX_TERMS
        &&& sum_counts(v) <= MAX_TEXT_TERMS
        &&& all_positive(v)
        &&& distinct_terms(v)
    }

    /// The number of terms kept.
    pub fn len(&self) -> (n: usize)
        ensures
            n == self@.len(),
            Self::bounded(self@),
    {
        proof {
            use_type_invariant(self);
        }
        self.entries.len()
    }

    /// Whether no term is kept.
    pub fn is_empty(&self) -> (r: bool)
        ensures
            r == (self@.len() == 0),
    {
        self.entries.len() == 0
    }

    /// The term at position `i`.
    pub fn term(&self, i: usize) -> (t: String)
        requires
            i < self@.len(),
        ensures
            t@ == self@[i as int].0,
    {
        self.entries[i].term.clone()
    }

    /// The count of the term at position `i`.
    pub fn count(&self, i: usize) -> (c: u32)
        requires
            i < self@.len(),
        ensures
            c == self@[i as int].1,
    {
        self.entries[i].count
    }

    /// The count kept for `term`; zero if the term is not kept.
    pub fn count_for(&self, term: &String) -> (c: u32)
        ensures
            c == count_of(self@, term@),
    {
        proof {
            lemma_locate(self@, term@, 0);
        }
        let p = position_of(&self.entries, term);
        if p < self.entries.len() {
            self.entries[p].count
        } else {
            0
        }
    }

    /// The count that `other` keeps for the term at position `i`.
    pub fn count_in(&self, i: usize, other: &FeatureVector) -> (c: u32)
        requires
            i < self@.len(),
        ensures
            c == count_of(other@, self@[i as int].0),
    {
        other.count_for(&self.entries[i].term)
    }

    /// A copy that holds the same terms and counts.
    pub fn duplicate(&self) -> (r: Self)
        ensures
            r@ == self@,
    {
        proof {
            use_type_invariant(self);
        }
        let mut entries: Vec<TermWeight> = Vec::new();
        let mut i: usize = 0;
        while i < self.entries.len()
            invariant
                i <= self.entries.len(),
                weights_of(entries@) == weights_of(self.entries@).take(i as int),
            decreases self.entries.len() - i,
        {
            let ghost before = weights_of(entries@);
            entries.push(
                TermWeight { term: self.entries[i].term.clone(), count: self.entries[i].count },
            );
            assert(weights_of(entries@) =~= before.push(weights_of(self.entries@)[i as int]));
            i += 1;
        }
        assert(weights_of(self.entries@).take(self.entries.len() as int) == weights_of(
            self.entries@,
        ));
        FeatureVector { entries, norm_sq: self.norm_sq }
    }

    /// The sum of the squares of the counts.
    pub fn norm_squared(&self) -> (n: u64)
        ensures
            n == sum_squares(self@),
            Self::bounded(self@),
    {
        proof {
            use_type_invariant(self);
        }
        self.norm_sq
    }

    /// The features of `text`, unless it holds more than `MAX_TEXT_TERMS`
    /// terms. A text with a term has features, and the squares of their
    /// weights sum to one: the sum of the squares of the counts, by whose
    /// square root each count is divided, is not zero.
    pub fn extract(text: &str) -> (r: Result<FeatureVector, StoreError>)
        ensures
            match r {
                Ok(f) => {
                    &&& terms(text@).len() <= MAX_TEXT_TERMS
                    &&& f@ == features_of(text@)
                    &&& (f@.len() == 0) == (terms(text@).len() == 0)
                    &&& f@.len() > 0 ==> sum_squares(f@) > 0
                },
                Err(e) => terms(text@).len() > MAX_TEXT_TERMS && e == StoreError::TextTooLong,
            },
            text@.len() == 0 ==> r is Ok && r.unwrap()@.len() == 0,
    {
        let chars = chars_of(text);
        Self::extract_chars(&chars)
    }

    /// The features of `text`, unless it holds more than `MAX_TEXT_TERMS` terms.
    pub fn extract_chars(text: &Vec<char>) -> (r: Result<FeatureVector, StoreError>)
        ensures
            match r {
                Ok(f) => {
                    &&& terms(text@).len() <= MAX_TEXT_TERMS
                    &&& f@ == features_of(text@)
                    &&& (f@.len() == 0) == (terms(text@).len() == 0)
                    &&& f@.len() > 0 ==> sum_squares(f@) > 0
                },
                Err(e) => terms(text@).len() > MAX_TEXT_TERMS && e == StoreError::TextTooLong,
            },
            text@.len() == 0 ==> r is Ok && r.unwrap()@.len() == 0,
    {
        let ts = terms_of(text);
        if ts.len() > MAX_TEXT_TERMS {
            return Err(StoreError::TextTooLong);
        }
        let counted = tally_of(&ts);
        let mut entries = rank(&counted);
        proof {
            lemma_tally_total(strings_of(ts@));
            lemma_tally_shape(strings_of(ts@));
            lemma_ranked(weights_of(counted@));
            lemma_features_shape(text@);
        }
        let ghost all = weights_of(entries@);
        entries.truncate(MAX_TERMS);
        proof {
            assert(weights_of(entries@) =~= top(all, MAX_TERMS as int));
            if MAX_TERMS < all.len() {
                lemma_sum_counts_take(all, MAX_TERMS as int);
            }
            if weights_of(entries@).len() > 0 {
                lemma_sum_squares_positive(weights_of(entries@));
            }
        }
        let norm_sq = norm_of(&entries);
        Ok(FeatureVector { entries, norm_sq })
    }
}

/// The letters and digits of `w`, in order.
pub fn keep_letters_and_digits(w: &Vec<char>) -> (r: Vec<char>)
    ensures
        r@ == letters_and_digits(w@),
{
    let mut out: Vec<char> = Vec::new();
    let mut i: usize = 0;
    while i < w.len()
        invariant
            i <= w.len(),
            out@ == letters_and_digits(w@.take(i as int)),
        decreases w.len() - i,
    {
        assert(w@.take(i + 1).drop_last() == w@.take(i as int));
        if char_is_alphanumeric(w[i]) {
            out.push(w[i]);
        }
        i += 1;
    }
    assert(w@.take(w.len() as int) == w@);
    out
}

/// The terms of `text`.
pub fn terms_of(text: &Vec<char>) -> (r: Vec<String>)
    ensures
        strings_of(r@) == terms(text@),
        text@.len() == 0 ==> r@.len() == 0,
{
    let lower = to_lowercase(text);
    let words = split_whitespace(&lower);
    let ghost ws = tokens(lowercase(text@));
    let mut out: Vec<String> = Vec::new();
    let mut i: usize = 0;
    while i < words.len()
        invariant
            i <= words.len(),
            ws == crate::text::views_of(words@),
            strings_of(out@) == cleaned(ws.take(i as int)),
        decreases words.len() - i,
    {
        let ghost before = strings_of(out@);
        assert(ws.take(i + 1).drop_last() == ws.take(i as int));
        let t = keep_letters_and_digits(&words[i]);
        if t.len() > 0 {
            out.push(string_of(&t));
            assert(strings_of(out@) =~= before.push(t@));
        }
        i += 1;
    }
    assert(ws.take(words.len() as int) == ws);
    out
}

/// The first position that holds the term `t`; the length if there is none.
fn position_of(entries: &Vec<TermWeight>, t: &String) -> (i: usize)
    ensures
        i == locate(weights_of(entries@), t@, 0),
{
    let mut i: usize = 0;
    while i < entries.len()
        invariant
            i <= entries.len(),
            locate(weights_of(entries@), t@, 0) == locate(weights_of(entries@), t@, i as int),
        decreases entries.len() - i,
    {
        if entries[i].term == *t {
            return i;
        }
        i += 1;
    }
    i
}

/// Each distinct term of `ts` with the number of its occurrences.
pub fn tally_of(ts: &Vec<String>) -> (r: Vec<TermWeight>)
    requires
        ts.len() <= MAX_TEXT_TERMS,
    ensures
        weights_of(r@) == tally(strings_of(ts@)),
{
    let ghost all = strings_of(ts@);
    let mut entries: Vec<TermWeight> = Vec::new();
    let mut i: usize = 0;
    while i < ts.len()
        invariant
            i <= ts.len() <= MAX_TEXT_TERMS,
            all == strings_of(ts@),
            weights_of(entries@) == tally(all.take(i as int)),
        decreases ts.len() - i,
    {
        let ghost before = weights_of(entries@);
        proof {
            assert(all.take(i + 1).drop_last() == all.take(i as int));
            lemma_tally_total(all.take(i as int));
            lemma_locate(before, ts[i as int]@, 0);
        }
        let p = position_of(&entries, &ts[i]);
        if p < entries.len() {
            proof {
                lemma_count_le_sum(before, p as int);
            }
            let c: u32 = entries[p].count;
            let bumped = TermWeight { term: ts[i].clone(), count: c + 1 };
            entries.remove(p);
            entries.insert(p, bumped);
            assert(weights_of(entries@) =~= before.update(p as int, (ts[i as int]@, (c + 1) as nat)));
        } else {
            entries.push(TermWeight { term: ts[i].clone(), count: 1 });
            assert(weights_of(entries@) =~= before.push((ts[i as int]@, 1nat)));
        }
        i += 1;
    }
    assert(all.take(ts.len() as int) == all);
    entries
}

/// The first position whose count is below `c`; the length if there is none.
fn slot_of(entries: &Vec<TermWeight>, c: u32) -> (i: usize)
    ensures
        i == slot(weights_of(entries@), c as nat, 0),
        i <= entries.len(),
{
    let mut i: usize = 0;
    while i < entries.len()
        invariant
            i <= entries.len(),
            slot(weights_of(entries@), c as nat, 0) == slot(weights_of(entries@), c as nat, i as int),
        decreases entries.len() - i,
    {
        if entries[i].count < c {
            return i;
        }
        i += 1;
    }
    i
}

/// The entries by falling count; among equal counts the earlier stays first.
pub fn rank(entries: &Vec<TermWeight>) -> (r: Vec<TermWeight>)
    ensures
        weights_of(r@) == ranked(weights_of(entries@)),
{
    let ghost all = weights_of(entries@);
    let mut out: Vec<TermWeight> = Vec::new();
    let mut i: usize = 0;
    while i < entries.len()
        invariant
            i <= entries.len(),
            all == weights_of(entries@),
            weights_of(out@) == ranked(all.take(i as int)),
        decreases entries.len() - i,
    {
        let ghost before = weights_of(out@);
        assert(all.take(i + 1).drop_last() == all.take(i as int));
        let p = slot_of(&out, entries[i].count);
        out.insert(p, TermWeight { term: entries[i].term.clone(), count: entries[i].count });
        assert(weights_of(out@) =~= before.insert(p as int, all[i as int]));
        i += 1;
    }
    assert(all.take(entries.len() as int) == all);
    out
}

/// The sum of the squares of the counts.
fn norm_of(entries: &Vec<TermWeight>) -> (n: u64)
    requires
        sum_counts(weights_of(entries@)) <= MAX_TEXT_TERMS,
    ensures
        n == sum_squares(weights_of(entries@)),
{
    let ghost all = weights_of(entries@);
    proof {
        lemma_sum_squares_le(all);
        assert(sum_counts(all) * sum_counts(all) <= 0xffff_ffff * 0xffff_ffff) by (nonlinear_arith)
            requires
                sum_counts(all) <= 0xffff_ffff,
        ;
    }
    let mut acc: u64 = 0;
    let mut i: usize = 0;
    while i < entries.len()
        invariant
            i <= entries.len(),
            all == weights_of(entries@),
            sum_squares(all) <= 0xffff_ffff * 0xffff_ffff,
            acc == sum_squares(all.take(i as int)),
        decreases entries.len() - i,
    {
        proof {
            assert(all.take(i + 1).drop_last() == all.take(i as int));
            lemma_sum_counts_take(all, i + 1);
        }
        let c: u64 = entries[i].count as u64;
        acc = acc + c * c;
        i += 1;
    }
    assert(all.take(entries.len() as int) == all);
    acc
}

} // verus!
