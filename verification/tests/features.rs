use silo::vault::similarity::ratio_less;
use silo::vault::{FeatureVector, Similarity};

fn entries(v: &FeatureVector) -> Vec<(String, u32)> {
    (0..v.len()).map(|i| (v.term(i), v.count(i))).collect()
}

fn pair(term: &str, count: u32) -> (String, u32) {
    (term.to_string(), count)
}

fn cosine(s: &Similarity) -> f64 {
    (s.numerator() as f64 / s.denominator() as f64).sqrt()
}

#[test]
fn features_of_the_empty_text_are_empty() {
    let v = FeatureVector::extract("").unwrap();
    assert!(v.is_empty());
    assert_eq!(v.len(), 0);
    assert_eq!(v.norm_squared(), 0);
}

#[test]
fn features_of_a_text_without_letters_are_empty() {
    let v = FeatureVector::extract("!!! ... ?!").unwrap();
    assert!(v.is_empty());
}

#[test]
fn features_count_terms_in_lower_case_without_punctuation() {
    let v = FeatureVector::extract("Hello, hello WORLD!").unwrap();
    assert_eq!(entries(&v), vec![pair("hello", 2), pair("world", 1)]);
    assert_eq!(v.norm_squared(), 5);
}

#[test]
fn features_strip_what_is_no_letter_or_digit_inside_words() {
    let v = FeatureVector::extract("privacy-first it's 3.14").unwrap();
    assert_eq!(
        entries(&v),
        vec![pair("privacyfirst", 1), pair("its", 1), pair("314", 1)]
    );
    assert_eq!(v.norm_squared(), 3);
}

#[test]
fn features_with_equal_counts_keep_the_order_of_first_occurrence() {
    let v = FeatureVector::extract("b a b a c").unwrap();
    assert_eq!(entries(&v), vec![pair("b", 2), pair("a", 2), pair("c", 1)]);
    assert_eq!(v.norm_squared(), 9);
}

#[test]
fn features_are_sorted_by_falling_count() {
    let v = FeatureVector::extract("x y y z z z y z z").unwrap();
    assert_eq!(entries(&v), vec![pair("z", 5), pair("y", 3), pair("x", 1)]);
    assert_eq!(v.norm_squared(), 35);
}

#[test]
fn features_keep_the_hundred_most_frequent_terms() {
    let mut words: Vec<String> = (0..150).map(|i| format!("w{}", i)).collect();
    words.push("w149".to_string());
    words.push("w120".to_string());
    words.push("w120".to_string());
    let v = FeatureVector::extract(&words.join(" ")).unwrap();
    assert_eq!(v.len(), 100);
    assert_eq!((v.term(0), v.count(0)), pair("w120", 3));
    assert_eq!((v.term(1), v.count(1)), pair("w149", 2));
    assert_eq!((v.term(2), v.count(2)), pair("w0", 1));
    assert_eq!((v.term(99), v.count(99)), pair("w97", 1));
    assert_eq!(v.norm_squared(), 9 + 4 + 98);
}

#[test]
fn features_take_unicode_letters() {
    let v = FeatureVector::extract("ÄB äb 隐私 隐私 隐私").unwrap();
    assert_eq!(entries(&v), vec![pair("隐私", 3), pair("äb", 2)]);
}

#[test]
fn squares_of_the_weights_sum_to_one() {
    let v = FeatureVector::extract("one two two three three three").unwrap();
    let norm = v.norm_squared() as f64;
    assert!(norm > 0.0);
    let sum: f64 = (0..v.len())
        .map(|i| {
            let w = v.count(i) as f64 / norm.sqrt();
            w * w
        })
        .sum();
    assert!((sum - 1.0).abs() < 1e-12);
}

#[test]
fn similarity_with_itself_is_one() {
    let v = FeatureVector::extract("alpha beta beta gamma").unwrap();
    let s = Similarity::between(&v, &v);
    assert_eq!(s.numerator(), s.denominator());
    assert_eq!(s.numerator(), 36);
    assert_eq!(s.hundredths(), 100);
    assert!(s.is_relevant());
}

#[test]
fn similarity_is_symmetric() {
    let a = FeatureVector::extract("alpha beta beta gamma").unwrap();
    let b = FeatureVector::extract("beta delta beta alpha beta").unwrap();
    let ab = Similarity::between(&a, &b);
    let ba = Similarity::between(&b, &a);
    assert_eq!(ab.numerator(), ba.numerator());
    assert_eq!(ab.denominator(), ba.denominator());
    assert_eq!(ab.numerator(), 49);
    assert_eq!(ab.denominator(), 66);
}

#[test]
fn similarity_with_an_empty_vector_is_zero() {
    let a = FeatureVector::extract("alpha beta").unwrap();
    let e = FeatureVector::extract("").unwrap();
    for s in [
        Similarity::between(&a, &e),
        Similarity::between(&e, &a),
        Similarity::between(&e, &e),
    ] {
        assert_eq!(s.numerator(), 0);
        assert_eq!(s.denominator(), 1);
        assert!(!s.is_relevant());
        assert_eq!(s.hundredths(), 0);
    }
}

#[test]
fn similarity_goes_by_term() {
    let doc = FeatureVector::extract("Silo is a privacy-first local agent.").unwrap();
    let query = FeatureVector::extract("privacy agent").unwrap();
    let s = Similarity::between(&query, &doc);
    assert_eq!(s.numerator(), 1);
    assert_eq!(s.denominator(), 12);
    assert!((cosine(&s) - 0.28867513459481287).abs() < 1e-12);
    assert_eq!(s.hundredths(), 29);
    assert!(s.is_relevant());
}

#[test]
fn similarity_without_a_common_term_is_zero() {
    let a = FeatureVector::extract("alpha").unwrap();
    let b = FeatureVector::extract("zebra").unwrap();
    let s = Similarity::between(&a, &b);
    assert_eq!((s.numerator(), s.denominator()), (0, 1));
    assert!(!s.is_relevant());
    let a = FeatureVector::extract("alpha beta beta gamma").unwrap();
    let b = FeatureVector::extract("delta delta delta epsilon").unwrap();
    let s = Similarity::between(&a, &b);
    assert_eq!((s.numerator(), s.denominator()), (0, 60));
    assert_eq!(s.hundredths(), 0);
}

#[test]
fn similarity_does_not_go_by_the_order_of_the_terms() {
    let a = FeatureVector::extract("x x x y y z").unwrap();
    let b = FeatureVector::extract("z z z y y x").unwrap();
    let s = Similarity::between(&a, &b);
    assert_eq!((s.numerator(), s.denominator()), (100, 196));
}

#[test]
fn counts_are_found_by_term() {
    let a = FeatureVector::extract("x x x y y z").unwrap();
    let b = FeatureVector::extract("z z y w").unwrap();
    assert_eq!(a.count_for(&"y".to_string()), 2);
    assert_eq!(a.count_for(&"w".to_string()), 0);
    assert_eq!(a.count_for(&String::new()), 0);
    assert_eq!(a.count_in(0, &b), 0);
    assert_eq!(a.count_in(1, &b), 1);
    assert_eq!(a.count_in(2, &b), 2);
}

#[test]
fn similarity_is_never_more_than_one() {
    let texts = ["a", "a b", "a a b", "a b c d e f g", "x x x x y", "q w e r t y q q"];
    for t in texts {
        for u in texts {
            let a = FeatureVector::extract(t).unwrap();
            let b = FeatureVector::extract(u).unwrap();
            let s = Similarity::between(&a, &b);
            assert!(s.denominator() > 0);
            assert!(s.numerator() <= s.denominator());
        }
    }
}

#[test]
fn threshold_is_one_tenth_and_not_met_by_it() {
    let one = FeatureVector::extract("w0").unwrap();
    let hundred: Vec<String> = (0..100).map(|i| format!("w{}", i)).collect();
    let ninety_nine = hundred[..99].join(" ");
    let at = Similarity::between(&one, &FeatureVector::extract(&hundred.join(" ")).unwrap());
    assert_eq!((at.numerator(), at.denominator()), (1, 100));
    assert!(!at.is_relevant());
    assert_eq!(at.hundredths(), 10);
    let above = Similarity::between(&one, &FeatureVector::extract(&ninety_nine).unwrap());
    assert_eq!((above.numerator(), above.denominator()), (1, 99));
    assert!(above.is_relevant());
    assert_eq!(above.hundredths(), 10);
}

#[test]
fn hundredths_round_to_the_nearest() {
    let a = FeatureVector::extract("a").unwrap();
    let four = FeatureVector::extract("a b c d").unwrap();
    let s = Similarity::between(&a, &four);
    assert_eq!((s.numerator(), s.denominator()), (1, 4));
    assert_eq!(s.hundredths(), 50);
    let three = FeatureVector::extract("a b c").unwrap();
    let s = Similarity::between(&a, &three);
    assert_eq!(s.hundredths(), 58);
    let sixty_four: Vec<String> = (0..63).map(|i| format!("w{}", i)).collect();
    let text = format!("{} a", sixty_four.join(" "));
    let s = Similarity::between(&a, &FeatureVector::extract(&text).unwrap());
    assert_eq!((s.numerator(), s.denominator()), (1, 64));
    assert_eq!(s.hundredths(), 13);
}

#[test]
fn less_than_compares_the_fractions() {
    let a = FeatureVector::extract("a").unwrap();
    let two = FeatureVector::extract("a b").unwrap();
    let three = FeatureVector::extract("a b c").unwrap();
    let half = Similarity::between(&a, &two);
    let third = Similarity::between(&a, &three);
    assert!(third.less_than(&half));
    assert!(!half.less_than(&third));
    assert!(!half.less_than(&half));
    assert!(Similarity::zero().less_than(&third));
    assert!(!third.less_than(&Similarity::zero()));
}

#[test]
fn ratio_less_is_exact_on_large_numbers() {
    assert!(ratio_less(1, 2, 2, 3));
    assert!(!ratio_less(2, 3, 1, 2));
    assert!(!ratio_less(3, 7, 3, 7));
    assert!(!ratio_less(6, 14, 3, 7));
    assert!(ratio_less(0, 5, 1, u128::MAX));
    let m = u128::MAX;
    assert!(ratio_less(m - 1, m, m, m));
    assert!(ratio_less(m - 2, m - 1, m - 1, m));
    assert!(!ratio_less(m - 1, m, m - 2, m - 1));
    assert!(!ratio_less(m, 1, m, 1));
    assert!(ratio_less(m - 1, 1, m, 1));
    assert!(ratio_less(1, m, 1, m - 1));
}
