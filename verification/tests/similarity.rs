use lic::spdx::list::License;
use lic::spdx::ranking::rank;
use lic::spdx::ranking::ranking_order;
use lic::spdx::ranking::SimilarityRank;
use lic::spdx::similarity::normalize_score;
use lic::spdx::similarity::score;
use lic::spdx::similarity::INFINITY;
use lic::spdx::similarity::ONE;
use lic::text::precedes;
use lic::text::same_text;

fn plain(id: &str) -> License {
    License {
        reference: String::new(),
        is_deprecated_license_id: false,
        details_url: String::new(),
        reference_number: 0,
        name: String::new(),
        license_id: String::from(id),
        see_also: vec![],
        is_osi_approved: false,
        is_fsf_libre: Some(false),
    }
}

#[test]
fn one_is_the_double_one() {
    assert_eq!(ONE, 1.0f64.to_bits());
    assert_eq!(INFINITY, f64::INFINITY.to_bits());
}

#[test]
fn score_of_identical_strings_is_one() {
    for text in ["MIT", "GPL-3.0", "a", "Apache-2.0", "ÄÖÜ", "x y z"] {
        assert_eq!(f64::from_bits(score(text, text)), 1.0);
    }
}

#[test]
fn score_sets_case_aside() {
    assert_eq!(score("MIT", "mit"), ONE);
    assert_eq!(score("gpl-3.0", "GPL-3.0"), ONE);
    assert_eq!(score("GPL-2.0", "gpl"), score("gpl-2.0", "GPL"));
}

#[test]
fn score_has_the_jaro_winkler_value() {
    assert_eq!(f64::from_bits(score("GPL-2.0", "gpl")), 0.8666666666666667);
    assert_eq!(f64::from_bits(score("LGPL-3.0", "gpl")), 0.6805555555555555);
    assert_eq!(f64::from_bits(score("Apache-2.0", "gpl")), 0.47777777777777775);
    assert_eq!(f64::from_bits(score("GPL-2.0", "GPL-3.0")), 0.9428571428571428);
    assert_eq!(f64::from_bits(score("LGPL-3.0", "GPL-3.0")), 0.9107142857142857);
    assert_eq!(f64::from_bits(score("cheeseburger", "cheese fries")), 0.9111111111111111);
    assert_eq!(score("MIT", "gpl"), 0);
}

#[test]
fn score_of_empty_strings_is_defined() {
    assert_eq!(f64::from_bits(score("", "")), 1.0);
    assert_eq!(f64::from_bits(score("", "MIT")), 0.0);
    assert_eq!(f64::from_bits(score("MIT", "")), 0.0);
}

#[test]
fn score_stays_in_the_unit_interval() {
    let texts = ["", "MIT", "mit license", "GPL-3.0-or-later", "gpl", "0BSD", "ÄÖÜ"];
    for a in texts {
        for b in texts {
            let value = f64::from_bits(score(a, b));
            assert!((0.0..=1.0).contains(&value));
        }
    }
}

#[test]
fn normalize_score_keeps_the_unit_interval() {
    assert_eq!(normalize_score(0), 0);
    assert_eq!(normalize_score(0.5f64.to_bits()), 0.5f64.to_bits());
    assert_eq!(normalize_score(ONE), ONE);
    assert_eq!(normalize_score(f64::MIN_POSITIVE.to_bits()), f64::MIN_POSITIVE.to_bits());
}

#[test]
fn normalize_score_caps_larger_numbers() {
    assert_eq!(normalize_score(ONE + 1), ONE);
    assert_eq!(normalize_score(2.5f64.to_bits()), ONE);
    assert_eq!(normalize_score(f64::MAX.to_bits()), ONE);
    assert_eq!(normalize_score(INFINITY), ONE);
}

#[test]
fn normalize_score_drops_nan_and_negative_numbers() {
    assert_eq!(normalize_score(f64::NAN.to_bits()), 0);
    assert_eq!(normalize_score(INFINITY + 1), 0);
    assert_eq!(normalize_score((-0.0f64).to_bits()), 0);
    assert_eq!(normalize_score((-0.5f64).to_bits()), 0);
    assert_eq!(normalize_score(f64::NEG_INFINITY.to_bits()), 0);
    assert_eq!(normalize_score(u64::MAX), 0);
}

#[test]
fn precedes_is_lexicographic() {
    assert!(precedes("GPL-2.0", "GPL-3.0"));
    assert!(!precedes("GPL-3.0", "GPL-2.0"));
    assert!(precedes("GPL", "GPL-2.0"));
    assert!(!precedes("GPL-2.0", "GPL"));
    assert!(precedes("", "a"));
    assert!(!precedes("a", ""));
    assert!(!precedes("", ""));
    assert!(!precedes("MIT", "MIT"));
    assert!(precedes("MIT", "mit"));
    assert!(precedes("Apache-2.0", "MIT"));
    assert!(precedes("z", "é"));
    assert!(precedes("é", "香"));
}

#[test]
fn precedes_agrees_with_the_order_of_strings() {
    let texts = ["", "0BSD", "AGPL-3.0", "Apache-2.0", "MIT", "MIT-0", "mit", "Zlib", "é", "ée"];
    for a in texts {
        for b in texts {
            assert_eq!(precedes(a, b), a < b);
        }
    }
}

#[test]
fn same_text_compares_characters() {
    assert!(same_text("", ""));
    assert!(same_text("MIT", "MIT"));
    assert!(!same_text("MIT", "mit"));
    assert!(!same_text("MIT", "MIT-0"));
    assert!(!same_text("MIT-0", "MIT"));
    assert!(same_text("香é", "香é"));
    assert!(!same_text("香é", "香e"));
}

#[test]
fn rank_orders_by_score_first() {
    let (a, b, c) = (plain("A"), plain("B"), plain("C"));
    let candidates = vec![
        SimilarityRank { score: 0.25f64.to_bits(), license: &a },
        SimilarityRank { score: 0.75f64.to_bits(), license: &b },
        SimilarityRank { score: 0.5f64.to_bits(), license: &c },
    ];
    assert_eq!(ranking_order(&candidates), vec![1, 2, 0]);
    assert_eq!(rank(&candidates, 3), vec![plain("B"), plain("C"), plain("A")]);
    assert_eq!(rank(&candidates, 2), vec![plain("B"), plain("C")]);
    assert_eq!(rank(&candidates, 9), vec![plain("B"), plain("C"), plain("A")]);
    assert_eq!(rank(&candidates, 0), vec![]);
}

#[test]
fn rank_breaks_ties_by_identifier() {
    let (a, b, c, d) = (plain("beta"), plain("alpha"), plain("Beta"), plain("alp"));
    let candidates = vec![
        SimilarityRank { score: 7, license: &a },
        SimilarityRank { score: 7, license: &b },
        SimilarityRank { score: 7, license: &c },
        SimilarityRank { score: 7, license: &d },
    ];
    assert_eq!(ranking_order(&candidates), vec![2, 3, 1, 0]);
}

#[test]
fn rank_breaks_remaining_ties_by_position() {
    let mut first = plain("same");
    first.name = String::from("first");
    let mut second = plain("same");
    second.name = String::from("second");
    let better = plain("same");
    let candidates = vec![
        SimilarityRank { score: 1, license: &first },
        SimilarityRank { score: 1, license: &second },
        SimilarityRank { score: 2, license: &better },
    ];
    assert_eq!(ranking_order(&candidates), vec![2, 0, 1]);
    let top = rank(&candidates, 3);
    assert_eq!(top[1].name, "first");
    assert_eq!(top[2].name, "second");
}

#[test]
fn rank_of_nothing_is_nothing() {
    let candidates: Vec<SimilarityRank> = vec![];
    assert_eq!(ranking_order(&candidates), Vec::<usize>::new());
    assert_eq!(rank(&candidates, 5), vec![]);
}

#[test]
fn rank_sorts_a_reversed_list() {
    let licenses: Vec<License> = (0..40).map(|i| plain(&format!("L{:02}", i))).collect();
    let candidates: Vec<SimilarityRank> = licenses
        .iter()
        .enumerate()
        .map(|(i, license)| SimilarityRank { score: (i / 2) as u64, license })
        .collect();
    let order = ranking_order(&candidates);
    let expected: Vec<usize> = (0..20).rev().flat_map(|pair| [2 * pair, 2 * pair + 1]).collect();
    assert_eq!(order, expected);
}
