use crate::vault::features::{
    count_of, distinct_terms, lemma_count_of_le_sum, lemma_count_of_own, lemma_count_of_remove,
    lemma_locate, lemma_locate_is, lemma_sum_counts_remove, lemma_sum_counts_take,
    lemma_sum_squares_positive, locate, sum_counts, sum_squares, FeatureVector,
};
use vstd::arithmetic::div_mod::lemma_fundamental_div_mod;
use vstd::prelude::*;

verus! {

/// The sum of the products of the counts that stand at the same position,
/// over the first `k` positions.
pub open spec fn paired_upto(a: Seq<(Seq<char>, nat)>, b: Seq<(Seq<char>, nat)>, k: int) -> nat
    decreases k,
{
    if k <= 0 {
        0
    } else {
        paired_upto(a, b, k - 1) + a[k - 1].1 * b[k - 1].1
    }
}

/// The sum, over the first `k` terms of `a`, of the products of the count
/// that `a` holds for the term and the count that `b` holds for it.
pub open spec fn dot_upto(a: Seq<(Seq<char>, nat)>, b: Seq<(Seq<char>, nat)>, k: int) -> nat
    decreases k,
{
    if k <= 0 {
        0
    } else {
        dot_upto(a, b, k - 1) + a[k - 1].1 * count_of(b, a[k - 1].0)
    }
}

/// The dot product of two vectors of counts by term: the sum, over the
/// terms of `a`, of the products of the counts that the two hold for the
/// term. A term that one of them does not hold adds nothing.
pub open spec fn dot(a: Seq<(Seq<char>, nat)>, b: Seq<(Seq<char>, nat)>) -> nat {
    dot_upto(a, b, a.len() as int)
}

/// The terms of `a`, each with the count that `b` holds for it.
pub open spec fn matched(a: Seq<(Seq<char>, nat)>, b: Seq<(Seq<char>, nat)>) -> Seq<
    (Seq<char>, nat),
> {
    Seq::new(a.len(), |i: int| (a[i].0, count_of(b, a[i].0)))
}

/// The sum of the counts of the first `k` entries of `b` that hold `t`.
pub open spec fn picked(b: Seq<(Seq<char>, nat)>, t: Seq<char>, k: int) -> nat
    decreases k,
{
    if k <= 0 {
        0
    } else {
        picked(b, t, k - 1) + if b[k - 1].0 == t {
            b[k - 1].1
        } else {
            0
        }
    }
}

/// The square of the cosine of the angle between two vectors, as a fraction:
/// the square of their dot product over the product of the sums of their
/// squares. Zero where a vector is empty or has no length.
pub open spec fn cosine_squared(a: Seq<(Seq<char>, nat)>, b: Seq<(Seq<char>, nat)>) -> (
    nat,
    nat,
) {
    if a.len() == 0 || b.len() == 0 || sum_squares(a) == 0 || sum_squares(b) == 0 {
        (0, 1)
    } else {
        (dot(a, b) * dot(a, b), sum_squares(a) * sum_squares(b))
    }
}

/// The fraction `a` is less than the fraction `b`.
pub open spec fn ratio_lt(a: (nat, nat), b: (nat, nat)) -> bool {
    a.0 * b.1 < b.0 * a.1
}

/// The two fractions are the same number.
pub open spec fn ratio_eq(a: (nat, nat), b: (nat, nat)) -> bool {
    a.0 * b.1 == b.0 * a.1
}

/// A cosine whose square is `s` is more than one tenth.
pub open spec fn above_threshold(s: (nat, nat)) -> bool {
    100 * s.0 > s.1
}

/// A cosine whose square is `s` is at least `j` hundredths less half a hundredth.
pub open spec fn reaches(s: (nat, nat), j: int) -> bool {
    (2 * j - 1) * (2 * j - 1) * s.1 <= 40000 * s.0
}

/// The last number of hundredths from `j - 1` on that the cosine reaches.
pub open spec fn hundredths_from(s: (nat, nat), j: int) -> int
    decreases 101 - j,
{
    if j > 100 || !reaches(s, j) {
        j - 1
    } else {
        hundredths_from(s, j + 1)
    }
}

/// A cosine whose square is `s`, in hundredths, rounded to the nearest
/// (a half goes up).
pub open spec fn hundredths(s: (nat, nat)) -> int {
    hundredths_from(s, 1)
}

/// A cosine that reaches a number of hundredths reaches every lower one.
pub proof fn lemma_reaches_lower(s: (nat, nat), i: int, j: int)
    requires
        1 <= i <= j,
        reaches(s, j),
    ensures
        reaches(s, i),
{
    let d = s.1 as int;
    assert((2 * i - 1) * (2 * i - 1) <= (2 * j - 1) * (2 * j - 1)) by (nonlinear_arith)
        requires
            1 <= i <= j,
    ;
    assert((2 * i - 1) * (2 * i - 1) * d <= (2 * j - 1) * (2 * j - 1) * d) by (nonlinear_arith)
        requires
            (2 * i - 1) * (2 * i - 1) <= (2 * j - 1) * (2 * j - 1),
            d >= 0,
    ;
}

/// What `hundredths_from` gives when the cosine reaches `j - 1`.
pub proof fn lemma_hundredths_from(s: (nat, nat), j: int)
    requires
        1 <= j <= 101,
        j > 1 ==> reaches(s, j - 1),
    ensures
        j - 1 <= hundredths_from(s, j) <= 100,
        hundredths_from(s, j) >= 1 ==> reaches(s, hundredths_from(s, j)),
        hundredths_from(s, j) < 100 ==> !reaches(s, hundredths_from(s, j) + 1),
    decreases 101 - j,
{
    if j <= 100 && reaches(s, j) {
        lemma_hundredths_from(s, j + 1);
    }
}

/// The hundredths of a cosine are the number `k` from 0 to 100 with the
/// cosine at least `k` hundredths less a half, and, unless `k` is 100,
/// below `k` hundredths and a half: the nearest, a half going up.
pub proof fn lemma_hundredths(s: (nat, nat))
    ensures
        0 <= hundredths(s) <= 100,
        forall|j: int| 1 <= j <= hundredths(s) ==> reaches(s, j),
        forall|j: int| hundredths(s) < j <= 100 ==> !reaches(s, j),
{
    lemma_hundredths_from(s, 1);
    let k = hundredths(s);
    assert forall|j: int| 1 <= j <= k implies reaches(s, j) by {
        lemma_reaches_lower(s, j, k);
    }
    assert forall|j: int| k < j <= 100 implies !reaches(s, j) by {
        if reaches(s, j) {
            lemma_reaches_lower(s, k + 1, j);
        }
    }
}

/// A dot product is no more than the product of the sums of the counts.
pub proof fn lemma_dot_upto_bound(a: Seq<(Seq<char>, nat)>, b: Seq<(Seq<char>, nat)>, k: int)
    requires
        0 <= k <= a.len(),
    ensures
        dot_upto(a, b, k) <= sum_counts(a.take(k)) * sum_counts(b),
    decreases k,
{
    if k > 0 {
        lemma_dot_upto_bound(a, b, k - 1);
        lemma_count_of_le_sum(b, a[k - 1].0);
        assert(a.take(k).drop_last() == a.take(k - 1));
        let s = sum_counts(a.take(k - 1));
        let x = a[k - 1].1;
        let y = count_of(b, a[k - 1].0);
        let t = sum_counts(b);
        assert(s * t + x * y <= (s + x) * t) by (nonlinear_arith)
            requires
                y <= t,
        ;
    } else {
        assert(sum_counts(a.take(0)) * sum_counts(b) >= 0) by (nonlinear_arith);
    }
}

/// The dot product by term is the sum of the products by position of the
/// counts of `a` and the counts that `b` holds for the terms of `a`.
pub proof fn lemma_dot_as_pairs(a: Seq<(Seq<char>, nat)>, b: Seq<(Seq<char>, nat)>, k: int)
    requires
        0 <= k <= a.len(),
    ensures
        dot_upto(a, b, k) == paired_upto(a, matched(a, b), k),
    decreases k,
{
    if k > 0 {
        lemma_dot_as_pairs(a, b, k - 1);
    }
}

/// The squares of the counts that `b` holds for the terms of `a` sum to no
/// more than the squares of all counts of `b`, as no term of `a` stands
/// twice.
pub proof fn lemma_matched_squares(a: Seq<(Seq<char>, nat)>, b: Seq<(Seq<char>, nat)>)
    requires
        distinct_terms(a),
    ensures
        sum_squares(matched(a, b)) <= sum_squares(b),
    decreases a.len(),
{
    if a.len() > 0 {
        let head = a.drop_last();
        let x = a.last();
        assert(distinct_terms(head)) by {
            assert forall|i: int, j: int| 0 <= i < j < head.len() implies head[i].0
                != head[j].0 by {
                assert(head[i] == a[i] && head[j] == a[j]);
            }
        }
        let m = matched(a, b);
        assert(m.drop_last() =~= matched(head, b));
        assert(m.last() == (x.0, count_of(b, x.0)));
        assert(sum_squares(m) == sum_squares(matched(head, b)) + count_of(b, x.0) * count_of(
            b,
            x.0,
        ));
        lemma_locate(b, x.0, 0);
        let p = locate(b, x.0, 0);
        if p < b.len() {
            let rest = b.remove(p);
            assert(matched(head, rest) =~= matched(head, b)) by {
                assert forall|i: int| 0 <= i < head.len() implies count_of(rest, head[i].0)
                    == count_of(b, head[i].0) by {
                    assert(head[i] == a[i]);
                    assert(a[i].0 != a[a.len() - 1].0);
                    lemma_count_of_remove(b, p, head[i].0);
                }
            }
            lemma_matched_squares(head, rest);
            lemma_sum_counts_remove(b, p);
        } else {
            lemma_matched_squares(head, b);
            assert(count_of(b, x.0) * count_of(b, x.0) == 0) by (nonlinear_arith)
                requires
                    count_of(b, x.0) == 0,
            ;
        }
    } else {
        assert(matched(a, b) =~= Seq::empty());
    }
}

/// The step of the Cauchy-Schwarz inequality.
proof fn lemma_cauchy_step(d: nat, a: nat, b: nat, x: nat, y: nat)
    requires
        d * d <= a * b,
    ensures
        (d + x * y) * (d + x * y) <= (a + x * x) * (b + y * y),
{
    let p = a * y * y;
    let q = b * x * x;
    let m = d * x * y;
    assert(m * m == (d * d) * (x * x * y * y)) by (nonlinear_arith)
        requires
            m == d * x * y,
    ;
    assert(p * q == (a * b) * (x * x * y * y)) by (nonlinear_arith)
        requires
            p == a * y * y,
            q == b * x * x,
    ;
    assert((d * d) * (x * x * y * y) <= (a * b) * (x * x * y * y)) by (nonlinear_arith)
        requires
            d * d <= a * b,
    ;
    assert(m * m <= p * q);
    assert((p + q) * (p + q) >= 4 * (p * q)) by (nonlinear_arith);
    assert(2 * m <= p + q) by (nonlinear_arith)
        requires
            (p + q) * (p + q) >= 4 * (m * m),
            m >= 0,
            p + q >= 0,
    ;
    assert((d + x * y) * (d + x * y) == d * d + 2 * m + x * x * y * y) by (nonlinear_arith)
        requires
            m == d * x * y,
    ;
    assert((a + x * x) * (b + y * y) == a * b + p + q + x * x * y * y) by (nonlinear_arith)
        requires
            p == a * y * y,
            q == b * x * x,
    ;
}

/// The Cauchy-Schwarz inequality for counts paired by position, over the
/// first `k` positions.
pub proof fn lemma_cauchy_upto(a: Seq<(Seq<char>, nat)>, b: Seq<(Seq<char>, nat)>, k: int)
    requires
        0 <= k <= a.len(),
        k <= b.len(),
    ensures
        paired_upto(a, b, k) * paired_upto(a, b, k) <= sum_squares(a.take(k)) * sum_squares(
            b.take(k),
        ),
    decreases k,
{
    if k > 0 {
        lemma_cauchy_upto(a, b, k - 1);
        assert(a.take(k).drop_last() == a.take(k - 1));
        assert(b.take(k).drop_last() == b.take(k - 1));
        lemma_cauchy_step(
            paired_upto(a, b, k - 1),
            sum_squares(a.take(k - 1)),
            sum_squares(b.take(k - 1)),
            a[k - 1].1,
            b[k - 1].1,
        );
    } else {
        assert(sum_squares(a.take(0)) * sum_squares(b.take(0)) >= 0) by (nonlinear_arith);
    }
}

/// The Cauchy-Schwarz inequality: the square of the dot product is at most
/// the product of the sums of squares, so a cosine is at most one.
pub proof fn lemma_cosine_at_most_one(a: Seq<(Seq<char>, nat)>, b: Seq<(Seq<char>, nat)>)
    requires
        distinct_terms(a),
    ensures
        cosine_squared(a, b).1 > 0,
        cosine_squared(a, b).0 <= cosine_squared(a, b).1,
{
    let k = a.len() as int;
    let m = matched(a, b);
    lemma_dot_as_pairs(a, b, k);
    lemma_cauchy_upto(a, m, k);
    assert(a.take(k) == a);
    assert(m.take(k) == m);
    lemma_matched_squares(a, b);
    let (x, y, q) = (sum_squares(a), sum_squares(m), sum_squares(b));
    assert(x * y <= x * q) by (nonlinear_arith)
        requires
            y <= q,
            x >= 0,
    ;
    assert(x > 0 && q > 0 ==> x * q > 0) by (nonlinear_arith);
}

/// The cosine with an empty vector is zero.
pub proof fn lemma_cosine_with_empty(a: Seq<(Seq<char>, nat)>, b: Seq<(Seq<char>, nat)>)
    requires
        a.len() == 0 || b.len() == 0,
    ensures
        cosine_squared(a, b) == (0nat, 1nat),
{
}

/// Of three fractions, if the first is not less than the second and the
/// second not less than the third, the first is not less than the third.
pub proof fn lemma_ratio_transitive(a: (nat, nat), b: (nat, nat), c: (nat, nat))
    requires
        a.1 > 0,
        b.1 > 0,
        c.1 > 0,
        !ratio_lt(a, b),
        !ratio_lt(b, c),
    ensures
        !ratio_lt(a, c),
{
    let (a0, a1, b0, b1, c0, c1) = (a.0 as int, a.1 as int, b.0 as int, b.1 as int, c.0 as int, c.1 as int);
    assert(a0 * b1 * c1 >= b0 * a1 * c1) by (nonlinear_arith)
        requires
            a0 * b1 >= b0 * a1,
            c1 > 0,
    ;
    assert(b0 * c1 * a1 >= c0 * b1 * a1) by (nonlinear_arith)
        requires
            b0 * c1 >= c0 * b1,
            a1 > 0,
    ;
    assert(b0 * a1 * c1 == b0 * c1 * a1) by (nonlinear_arith);
    assert(a0 * b1 * c1 == (a0 * c1) * b1) by (nonlinear_arith);
    assert(c0 * b1 * a1 == (c0 * a1) * b1) by (nonlinear_arith);
    assert(a0 * c1 >= c0 * a1) by (nonlinear_arith)
        requires
            (a0 * c1) * b1 >= (c0 * a1) * b1,
            b1 > 0,
    ;
}

/// The cosine of a feature vector with itself is one, unless the vector is
/// empty.
pub proof fn lemma_cosine_with_itself(a: Seq<(Seq<char>, nat)>)
    requires
        FeatureVector::bounded(a),
        a.len() > 0,
    ensures
        cosine_squared(a, a).0 == cosine_squared(a, a).1,
        cosine_squared(a, a).1 > 0,
{
    lemma_sum_squares_positive(a);
    lemma_dot_self(a, a.len() as int);
    assert(a.take(a.len() as int) == a);
    let n = sum_squares(a);
    assert(n * n > 0) by (nonlinear_arith)
        requires
            n > 0,
    ;
}

/// The dot product of a vector with itself is the sum of its squares.
pub proof fn lemma_dot_self(a: Seq<(Seq<char>, nat)>, k: int)
    requires
        distinct_terms(a),
        0 <= k <= a.len(),
    ensures
        dot_upto(a, a, k) == sum_squares(a.take(k)),
    decreases k,
{
    if k > 0 {
        lemma_dot_self(a, k - 1);
        lemma_count_of_own(a, k - 1);
        assert(a.take(k).drop_last() == a.take(k - 1));
    }
}

/// Where no term stands twice, the counts picked for a term are the count
/// of the one entry that holds it, once that entry is among those looked at.
pub proof fn lemma_picked(b: Seq<(Seq<char>, nat)>, t: Seq<char>, k: int)
    requires
        distinct_terms(b),
        0 <= k <= b.len(),
    ensures
        picked(b, t, k) == if locate(b, t, 0) < k {
            b[locate(b, t, 0)].1
        } else {
            0
        },
    decreases k,
{
    lemma_locate(b, t, 0);
    if k > 0 {
        lemma_picked(b, t, k - 1);
        if b[k - 1].0 == t {
            lemma_locate_is(b, t, k - 1);
        }
    }
}

/// With one more term, which `a` did not hold, the count of a term is what
/// it was, and for the new term the new count.
pub proof fn lemma_count_of_push(a: Seq<(Seq<char>, nat)>, x: (Seq<char>, nat), u: Seq<char>)
    requires
        forall|i: int| 0 <= i < a.len() ==> (#[trigger] a[i]).0 != x.0,
    ensures
        count_of(a.push(x), u) == count_of(a, u) + if u == x.0 {
            x.1
        } else {
            0
        },
{
    lemma_locate(a, u, 0);
    let q = locate(a, u, 0);
    let more = a.push(x);
    if q < a.len() {
        assert(more[q] == a[q]);
        assert forall|j: int| 0 <= j < q implies more[j].0 != u by {
            assert(more[j] == a[j]);
        }
        lemma_locate_is(more, u, q);
    } else {
        assert forall|j: int| 0 <= j < a.len() implies more[j].0 != u by {
            assert(more[j] == a[j]);
        }
        if u == x.0 {
            lemma_locate_is(more, u, a.len() as int);
        } else {
            lemma_locate_is(more, u, more.len() as int);
        }
    }
}

/// With one more term in the second vector, which it did not hold, the dot
/// product gains the product of the new count and the counts that the
/// first vector holds for the new term.
pub proof fn lemma_dot_push(
    b: Seq<(Seq<char>, nat)>,
    a: Seq<(Seq<char>, nat)>,
    x: (Seq<char>, nat),
    k: int,
)
    requires
        0 <= k <= b.len(),
        forall|i: int| 0 <= i < a.len() ==> (#[trigger] a[i]).0 != x.0,
    ensures
        dot_upto(b, a.push(x), k) == dot_upto(b, a, k) + x.1 * picked(b, x.0, k),
    decreases k,
{
    if k > 0 {
        lemma_dot_push(b, a, x, k - 1);
        lemma_count_of_push(a, x, b[k - 1].0);
        let (c, d, y, v) = (
            b[k - 1].1 as int,
            count_of(a, b[k - 1].0) as int,
            x.1 as int,
            picked(b, x.0, k - 1) as int,
        );
        if b[k - 1].0 == x.0 {
            assert(c * (d + y) == c * d + y * c) by (nonlinear_arith);
            assert(y * (v + c) == y * v + y * c) by (nonlinear_arith);
        }
    } else {
        assert(x.1 * picked(b, x.0, k) == 0) by (nonlinear_arith)
            requires
                picked(b, x.0, k) == 0,
        ;
    }
}

/// The dot product looks at the first `k` entries of its first vector only.
pub proof fn lemma_dot_prefix(
    a: Seq<(Seq<char>, nat)>,
    c: Seq<(Seq<char>, nat)>,
    b: Seq<(Seq<char>, nat)>,
    k: int,
)
    requires
        0 <= k <= a.len(),
        k <= c.len(),
        forall|i: int| 0 <= i < k ==> a[i] == c[i],
    ensures
        dot_upto(a, b, k) == dot_upto(c, b, k),
    decreases k,
{
    if k > 0 {
        lemma_dot_prefix(a, c, b, k - 1);
    }
}

/// The dot product does not depend on the order of the two vectors, as
/// neither holds a term twice.
pub proof fn lemma_dot_symmetric(a: Seq<(Seq<char>, nat)>, b: Seq<(Seq<char>, nat)>)
    requires
        distinct_terms(a),
        distinct_terms(b),
    ensures
        dot(a, b) == dot(b, a),
    decreases a.len(),
{
    if a.len() == 0 {
        lemma_dot_nothing(b, a, b.len() as int);
    } else {
        let head = a.drop_last();
        let x = a.last();
        assert(distinct_terms(head)) by {
            assert forall|i: int, j: int| 0 <= i < j < head.len() implies head[i].0
                != head[j].0 by {
                assert(head[i] == a[i] && head[j] == a[j]);
            }
        }
        assert forall|i: int| 0 <= i < head.len() implies (#[trigger] head[i]).0 != x.0 by {
            assert(head[i] == a[i]);
            assert(a[i].0 != a[a.len() - 1].0);
        }
        lemma_dot_symmetric(head, b);
        lemma_dot_prefix(a, head, b, head.len() as int);
        assert(a == head.push(x));
        lemma_dot_push(b, head, x, b.len() as int);
        lemma_picked(b, x.0, b.len() as int);
        lemma_locate(b, x.0, 0);
    }
}

/// The dot product with a vector that holds nothing is zero.
pub proof fn lemma_dot_nothing(b: Seq<(Seq<char>, nat)>, a: Seq<(Seq<char>, nat)>, k: int)
    requires
        a.len() == 0,
    ensures
        dot_upto(b, a, k) == 0,
    decreases k,
{
    if k > 0 {
        lemma_dot_nothing(b, a, k - 1);
        assert(b[k - 1].1 * count_of(a, b[k - 1].0) == 0) by (nonlinear_arith)
            requires
                count_of(a, b[k - 1].0) == 0,
        ;
    }
}

/// The cosine does not depend on the order of the two vectors.
pub proof fn lemma_cosine_symmetric(a: Seq<(Seq<char>, nat)>, b: Seq<(Seq<char>, nat)>)
    requires
        distinct_terms(a),
        distinct_terms(b),
    ensures
        cosine_squared(a, b) == cosine_squared(b, a),
{
    lemma_dot_symmetric(a, b);
    assert(sum_squares(a) * sum_squares(b) == sum_squares(b) * sum_squares(a))
        by (nonlinear_arith);
}

/// Two vectors that share no term have the cosine zero.
pub proof fn lemma_cosine_without_common_term(
    a: Seq<(Seq<char>, nat)>,
    b: Seq<(Seq<char>, nat)>,
)
    requires
        forall|i: int| 0 <= i < a.len() ==> count_of(b, (#[trigger] a[i]).0) == 0,
    ensures
        cosine_squared(a, b).0 == 0,
        !above_threshold(cosine_squared(a, b)),
{
    lemma_dot_without_common_term(a, b, a.len() as int);
    assert(dot(a, b) * dot(a, b) == 0) by (nonlinear_arith)
        requires
            dot(a, b) == 0,
    ;
    assert(sum_squares(a) * sum_squares(b) >= 0) by (nonlinear_arith);
}

/// The dot product of two vectors that share no term is zero.
pub proof fn lemma_dot_without_common_term(
    a: Seq<(Seq<char>, nat)>,
    b: Seq<(Seq<char>, nat)>,
    k: int,
)
    requires
        0 <= k <= a.len(),
        forall|i: int| 0 <= i < a.len() ==> count_of(b, (#[trigger] a[i]).0) == 0,
    ensures
        dot_upto(a, b, k) == 0,
    decreases k,
{
    if k > 0 {
        lemma_dot_without_common_term(a, b, k - 1);
        assert(count_of(b, a[k - 1].0) == 0);
        assert(a[k - 1].1 * count_of(b, a[k - 1].0) == 0) by (nonlinear_arith)
            requires
                count_of(b, a[k - 1].0) == 0,
        ;
    }
}

/// Whether the fraction `a / b` is less than the fraction `c / d`.
pub fn ratio_less(a: u128, b: u128, c: u128, d: u128) -> (r: bool)
    requires
        b > 0,
        d > 0,
    ensures
        r == (a * d < c * b),
{
    let mut p: u128 = a;
    let mut q: u128 = b;
    let mut u: u128 = c;
    let mut v: u128 = d;
    loop
        invariant
            q > 0,
            v > 0,
            (a * d < c * b) == (p * v < u * q),
        decreases q + v,
    {
        let qp: u128 = p / q;
        let qu: u128 = u / v;
        let rp: u128 = p % q;
        let ru: u128 = u % v;
        proof {
            lemma_fundamental_div_mod(p as int, q as int);
            lemma_fundamental_div_mod(u as int, v as int);
        }
        if qp != qu {
            proof {
                if qp < qu {
                    assert(p * v < u * q) by (nonlinear_arith)
                        requires
                            p == q * qp + rp,
                            u == v * qu + ru,
                            0 <= rp < q,
                            0 <= ru,
                            v > 0,
                            qp + 1 <= qu,
                    ;
                } else {
                    assert(p * v >= u * q) by (nonlinear_arith)
                        requires
                            p == q * qp + rp,
                            u == v * qu + ru,
                            0 <= ru < v,
                            0 <= rp,
                            q > 0,
                            qu + 1 <= qp,
                    ;
                }
            }
            return qp < qu;
        }
        assert((p * v < u * q) == (rp * v < ru * q)) by (nonlinear_arith)
            requires
                p == q * qp + rp,
                u == v * qp + ru,
        ;
        if ru == 0 {
            assert(rp * v >= 0 && ru * q == 0) by (nonlinear_arith)
                requires
                    ru == 0,
                    rp >= 0,
                    v > 0,
            ;
            return false;
        }
        if rp == 0 {
            assert(rp * v == 0 && ru * q > 0) by (nonlinear_arith)
                requires
                    rp == 0,
                    ru > 0,
                    q > 0,
            ;
            return true;
        }
        assert((rp * v < ru * q) == (v * rp < q * ru)) by (nonlinear_arith);
        p = v;
        u = q;
        q = ru;
        v = rp;
    }
}

/// How alike two feature vectors are: the square of the cosine of the angle
/// between them, kept as an exact fraction. The cosine itself lies between
/// zero and one; it is the square root of `numerator` over `denominator`.
#[derive(Clone, Copy, Debug)]
pub struct Similarity {
    num: u128,
    den: u128,
}

impl View for Similarity {
    type V = (nat, nat);

    closed spec fn view(&self) -> (nat, nat) {
        (self.num as nat, self.den as nat)
    }
}

impl Similarity {
    #[verifier::type_invariant]
    spec fn inv(&self) -> bool {
        0 < self.den && self.num <= self.den
    }

    /// A cosine of zero.
    pub fn zero() -> (r: Self)
        ensures
            r@ == (0nat, 1nat),
    {
        Similarity { num: 0, den: 1 }
    }

    /// The cosine between `a` and `b`, squared. The counts of the two are
    /// multiplied term by term.
    pub fn between(a: &FeatureVector, b: &FeatureVector) -> (r: Self)
        ensures
            r@ == cosine_squared(a@, b@),
    {
        let n = a.len();
        let m = b.len();
        let na: u64 = a.norm_squared();
        let nb: u64 = b.norm_squared();
        if a.is_empty() || b.is_empty() || na == 0 || nb == 0 {
            return Similarity::zero();
        }
        let ghost bound: int = 0xffff_ffffint * 0xffff_ffffint;
        let mut acc: u64 = 0;
        let mut i: usize = 0;
        while i < n
            invariant
                i <= n,
                n == a@.len(),
                FeatureVector::bounded(a@),
                FeatureVector::bounded(b@),
                acc == dot_upto(a@, b@, i as int),
                bound == 0xffff_ffff * 0xffff_ffff,
            decreases n - i,
        {
            proof {
                lemma_dot_upto_bound(a@, b@, i + 1);
                lemma_sum_counts_take(a@, i + 1);
                let s = sum_counts(a@.take(i + 1));
                let t = sum_counts(b@);
                assert(s * t <= bound) by (nonlinear_arith)
                    requires
                        s <= 0xffff_ffff,
                        t <= 0xffff_ffff,
                        bound == 0xffff_ffff * 0xffff_ffff,
                ;
            }
            let x: u64 = a.count(i) as u64;
            let y: u64 = a.count_in(i, b) as u64;
            assert(x * y <= bound) by (nonlinear_arith)
                requires
                    x <= 0xffff_ffff,
                    y <= 0xffff_ffff,
                    bound == 0xffff_ffff * 0xffff_ffff,
            ;
            acc = acc + x * y;
            i += 1;
        }
        proof {
            lemma_cosine_at_most_one(a@, b@);
            assert(acc * acc <= 0xffff_ffff_ffff_ffff * 0xffff_ffff_ffff_ffff) by (nonlinear_arith)
                requires
                    acc <= 0xffff_ffff_ffff_ffff,
            ;
            assert(na * nb <= 0xffff_ffff_ffff_ffff * 0xffff_ffff_ffff_ffff) by (nonlinear_arith)
                requires
                    na <= 0xffff_ffff_ffff_ffff,
                    nb <= 0xffff_ffff_ffff_ffff,
            ;
        }
        let d: u128 = acc as u128;
        Similarity { num: d * d, den: (na as u128) * (nb as u128) }
    }

    /// The numerator of the squared cosine.
    pub fn numerator(&self) -> (n: u128)
        ensures
            n == self@.0,
    {
        self.num
    }

    /// The denominator of the squared cosine; never zero.
    pub fn denominator(&self) -> (n: u128)
        ensures
            n == self@.1,
            n > 0,
            self@.0 <= self@.1,
    {
        proof {
            use_type_invariant(self);
        }
        self.den
    }

    /// Whether this similarity is less than `other`.
    pub fn less_than(&self, other: &Similarity) -> (r: bool)
        ensures
            r == ratio_lt(self@, other@),
    {
        proof {
            use_type_invariant(self);
            use_type_invariant(other);
        }
        ratio_less(self.num, self.den, other.num, other.den)
    }

    /// Whether the cosine is more than one tenth, the least that counts as
    /// a match.
    pub fn is_relevant(&self) -> (r: bool)
        ensures
            r == above_threshold(self@),
    {
        proof {
            use_type_invariant(self);
        }
        self.num > self.den / 100
    }

    /// The cosine in hundredths, rounded to the nearest.
    pub fn hundredths(&self) -> (k: u8)
        ensures
            k == hundredths(self@),
            k <= 100,
    {
        proof {
            use_type_invariant(self);
        }
        let mut j: u8 = 1;
        while j <= 100
            invariant
                1 <= j <= 101,
                0 < self.den,
                hundredths(self@) == hundredths_from(self@, j as int),
            decreases 101 - j,
        {
            let odd: u128 = 2 * (j as u128) - 1;
            assert(odd * odd <= 201 * 201) by (nonlinear_arith)
                requires
                    odd <= 201,
            ;
            let below = ratio_less(self.num, self.den, odd * odd, 40000);
            assert(below == !reaches(self@, j as int)) by (nonlinear_arith)
                requires
                    below == (self.num * 40000 < (odd * odd) * self.den),
                    odd == 2 * j - 1,
                    self@ == (self.num as nat, self.den as nat),
            ;
            if below {
                return j - 1;
            }
            j += 1;
        }
        100
    }
}

} // verus!
