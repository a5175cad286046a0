use manifestation_core::network::types::{
    CategoryScore, CategoryScores, ManifestationResult, NetworkScoresCache, MAX_SCORES_CAPACITY,
};
use manifestation_core::network::window::ScoreWindow;

fn result_of(score: f64, categories: &[(&str, f64)]) -> ManifestationResult {
    ManifestationResult {
        score: score.to_bits(),
        timestamp: 1_700_000_000,
        category_scores: categories
            .iter()
            .map(|(k, v)| CategoryScore {
                category: k.to_string(),
                score: v.to_bits(),
            })
            .collect(),
    }
}

fn floats(bits: &[u64]) -> Vec<f64> {
    bits.iter().map(|b| f64::from_bits(*b)).collect()
}

fn category<'a>(cache: &'a NetworkScoresCache, name: &str) -> &'a Vec<u64> {
    &cache
        .category_scores
        .iter()
        .find(|c| c.category == name)
        .unwrap()
        .scores
}

#[test]
fn window_evicts_the_oldest_score() {
    assert_eq!(MAX_SCORES_CAPACITY, 10_000);
    let mut window = ScoreWindow::new();
    assert_eq!(window.len(), 0);
    assert_eq!(window.percentile_90(), None);
    assert_eq!(window.mean(), None);
    for i in 1..=10_001u32 {
        window.insert(&result_of(i as f64, &[]));
    }
    assert_eq!(window.len(), 10_000);
    let scores = window.scores();
    let expected: Vec<f64> = (2..=10_001u32).map(|i| i as f64).collect();
    assert_eq!(floats(&scores), expected);
    assert_eq!(window.mean().map(f64::from_bits), Some(5_001.5));
    // 10000 * 0.9 = 9000 -> the score at index 9000 of 2.0, 3.0, ...
    assert_eq!(window.percentile_90().map(f64::from_bits), Some(9_002.0));
}

#[test]
fn window_holds_exactly_the_capacity_at_the_bound() {
    let mut window = ScoreWindow::new();
    for i in 0..9_999u32 {
        window.insert(&result_of(i as f64, &[]));
    }
    assert_eq!(window.len(), 9_999);
    window.insert(&result_of(9_999.0, &[]));
    assert_eq!(window.len(), 10_000);
    assert_eq!(f64::from_bits(window.scores()[0]), 0.0);
    window.insert(&result_of(10_000.0, &[]));
    assert_eq!(window.len(), 10_000);
    assert_eq!(f64::from_bits(window.scores()[0]), 1.0);
    assert_eq!(f64::from_bits(window.scores()[9_999]), 10_000.0);
}

#[test]
fn category_windows_are_bounded_each_on_its_own() {
    let mut window = ScoreWindow::new();
    for i in 0..10_050u32 {
        if i % 2 == 0 {
            window.insert(&result_of(1.0, &[("often", i as f64), ("even", i as f64)]));
        } else {
            window.insert(&result_of(1.0, &[("often", i as f64)]));
        }
    }
    let cache = window.to_cache();
    assert_eq!(cache.scores.len(), 10_000);
    assert_eq!(cache.category_scores.len(), 2);
    let often = category(&cache, "often");
    assert_eq!(
        floats(often),
        (50..10_050u32).map(|i| i as f64).collect::<Vec<f64>>()
    );
    let even = category(&cache, "even");
    assert_eq!(
        floats(even),
        (0..10_050u32)
            .filter(|i| i % 2 == 0)
            .map(|i| i as f64)
            .collect::<Vec<f64>>()
    );
}

#[test]
fn categories_come_in_the_order_they_first_appeared() {
    let mut window = ScoreWindow::new();
    window.insert(&result_of(10.0, &[("b", 2.0), ("a", 1.0)]));
    window.insert(&result_of(20.0, &[("a", 3.0), ("c", 9.0), ("b", 4.0)]));
    // A name that a result holds twice feeds the same window twice.
    window.insert(&result_of(30.0, &[("c", 5.0), ("c", 6.0)]));
    let cache = window.to_cache();
    assert_eq!(floats(&cache.scores), vec![10.0, 20.0, 30.0]);
    let names: Vec<&str> = cache
        .category_scores
        .iter()
        .map(|c| c.category.as_str())
        .collect();
    assert_eq!(names, vec!["b", "a", "c"]);
    assert_eq!(floats(category(&cache, "b")), vec![2.0, 4.0]);
    assert_eq!(floats(category(&cache, "a")), vec![1.0, 3.0]);
    assert_eq!(floats(category(&cache, "c")), vec![9.0, 5.0, 6.0]);

    let stats = window.category_stats();
    assert_eq!(stats.len(), 3);
    assert_eq!(stats[0].category, "b");
    assert_eq!(f64::from_bits(stats[0].avg), 3.0);
    assert_eq!(f64::from_bits(stats[0].p90), 4.0);
    assert_eq!(stats[1].category, "a");
    assert_eq!(f64::from_bits(stats[1].avg), 2.0);
    assert_eq!(f64::from_bits(stats[1].p90), 3.0);
    assert_eq!(stats[2].category, "c");
    assert_eq!(f64::from_bits(stats[2].avg), 20.0 / 3.0);
    assert_eq!(f64::from_bits(stats[2].p90), 9.0);
    assert_eq!(window.percentile_90().map(f64::from_bits), Some(30.0));
    assert_eq!(window.mean().map(f64::from_bits), Some(20.0));
}

#[test]
fn window_survives_saving_and_loading() {
    let mut window = ScoreWindow::new();
    for i in 0..500u32 {
        window.insert(&result_of(
            (i * 7 % 100) as f64,
            &[("focus", (i % 11) as f64), ("calm", (i % 3) as f64)],
        ));
    }
    let saved = window.to_cache();
    let loaded = ScoreWindow::from_cache(&saved).unwrap();
    let again = loaded.to_cache();
    assert_eq!(again.scores, saved.scores);
    assert_eq!(again.category_scores.len(), saved.category_scores.len());
    for (a, b) in again.category_scores.iter().zip(saved.category_scores.iter()) {
        assert_eq!(a.category, b.category);
        assert_eq!(a.scores, b.scores);
    }
    assert_eq!(loaded.scores(), window.scores());
    assert_eq!(loaded.len(), 500);
    assert_eq!(loaded.percentile_90(), window.percentile_90());
    assert_eq!(loaded.mean(), window.mean());
}

#[test]
fn empty_category_windows_are_kept_but_not_reported() {
    let cache = NetworkScoresCache {
        scores: vec![1.0f64.to_bits()],
        category_scores: vec![
            CategoryScores {
                category: "empty".to_string(),
                scores: vec![],
            },
            CategoryScores {
                category: "full".to_string(),
                scores: vec![2.0f64.to_bits()],
            },
        ],
    };
    let window = ScoreWindow::from_cache(&cache).unwrap();
    assert_eq!(window.to_cache().category_scores.len(), 2);
    let stats = window.category_stats();
    assert_eq!(stats.len(), 1);
    assert_eq!(stats[0].category, "full");
    assert_eq!(f64::from_bits(stats[0].avg), 2.0);
    assert_eq!(f64::from_bits(stats[0].p90), 2.0);
}

#[test]
fn snapshot_that_is_no_window_is_refused() {
    let empty = NetworkScoresCache::default();
    assert_eq!(empty.scores.len(), 0);
    assert_eq!(empty.category_scores.len(), 0);
    assert!(ScoreWindow::from_cache(&empty).is_some());

    let full = NetworkScoresCache {
        scores: vec![0; 10_000],
        category_scores: vec![CategoryScores {
            category: "c".to_string(),
            scores: vec![0; 10_000],
        }],
    };
    assert!(ScoreWindow::from_cache(&full).is_some());

    let long = NetworkScoresCache {
        scores: vec![0; 10_001],
        category_scores: vec![],
    };
    assert!(ScoreWindow::from_cache(&long).is_none());

    let long_category = NetworkScoresCache {
        scores: vec![],
        category_scores: vec![CategoryScores {
            category: "c".to_string(),
            scores: vec![0; 10_001],
        }],
    };
    assert!(ScoreWindow::from_cache(&long_category).is_none());

    let twice = NetworkScoresCache {
        scores: vec![],
        category_scores: vec![
            CategoryScores {
                category: "c".to_string(),
                scores: vec![1],
            },
            CategoryScores {
                category: "d".to_string(),
                scores: vec![2],
            },
            CategoryScores {
                category: "c".to_string(),
                scores: vec![3],
            },
        ],
    };
    assert!(ScoreWindow::from_cache(&twice).is_none());
}
