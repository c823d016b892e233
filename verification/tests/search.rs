use tsne::search::{search_beta, BetaSearch, Dyadic, Verdict, MAX_EVALUATIONS};

fn value_of(beta: Dyadic) -> f64 {
    beta.mantissa as f64 / (1u64 << beta.shift) as f64
}

fn judge_against(target: f64, beta: Dyadic) -> Verdict {
    let b = value_of(beta);
    if b < target {
        Verdict::Above
    } else if b > target {
        Verdict::Below
    } else {
        Verdict::Within
    }
}

fn conditional(row: &[f64], own: usize, beta: f64) -> Vec<f64> {
    let mut p: Vec<f64> = row.iter().map(|d| (-d * beta).exp()).collect();
    p[own] = 0.0;
    let sum: f64 = p.iter().sum();
    p.iter().map(|v| v / sum).collect()
}

fn perplexity(row: &[f64], own: usize, beta: f64) -> f64 {
    let entropy: f64 = conditional(row, own, beta).iter().map(|p| -p * p.max(1e-5).log2()).sum();
    entropy.exp2()
}

fn judge_perplexity(row: &[f64], own: usize, target: f64, beta: Dyadic) -> Verdict {
    let diff = perplexity(row, own, value_of(beta)) - target;
    if diff > 1e-5 {
        Verdict::Above
    } else if diff < -1e-5 {
        Verdict::Below
    } else {
        Verdict::Within
    }
}

#[test]
fn a_new_search_tries_one() {
    let search = BetaSearch::new();
    assert_eq!(search.beta(), Dyadic { mantissa: 1, shift: 0 });
    assert_eq!(search.lower_bound(), None);
    assert_eq!(search.upper_bound(), None);
    assert_eq!(search.evaluations(), 0);
    assert!(!search.converged());
    assert!(!search.is_done());
}

#[test]
fn above_without_upper_end_doubles() {
    let mut search = BetaSearch::new();
    search.step(Verdict::Above);
    assert_eq!(value_of(search.beta()), 2.0);
    assert_eq!(search.lower_bound().map(value_of), Some(1.0));
    assert_eq!(search.upper_bound(), None);
    search.step(Verdict::Above);
    assert_eq!(value_of(search.beta()), 4.0);
    assert_eq!(search.lower_bound().map(value_of), Some(2.0));
    assert_eq!(search.evaluations(), 2);
}

#[test]
fn below_without_lower_end_halves() {
    let mut search = BetaSearch::new();
    search.step(Verdict::Below);
    assert_eq!(value_of(search.beta()), 0.5);
    assert_eq!(search.upper_bound().map(value_of), Some(1.0));
    assert_eq!(search.lower_bound(), None);
    search.step(Verdict::Below);
    assert_eq!(value_of(search.beta()), 0.25);
    assert_eq!(search.upper_bound().map(value_of), Some(0.5));
}

#[test]
fn with_both_ends_the_search_bisects() {
    let mut search = BetaSearch::new();
    search.step(Verdict::Above);
    search.step(Verdict::Above);
    search.step(Verdict::Below);
    assert_eq!(value_of(search.beta()), 3.0);
    assert_eq!(search.lower_bound().map(value_of), Some(2.0));
    assert_eq!(search.upper_bound().map(value_of), Some(4.0));
    search.step(Verdict::Below);
    assert_eq!(value_of(search.beta()), 2.5);
    assert_eq!(search.lower_bound().map(value_of), Some(2.0));
    assert_eq!(search.upper_bound().map(value_of), Some(3.0));
    search.step(Verdict::Above);
    assert_eq!(value_of(search.beta()), 2.75);
    assert_eq!(search.lower_bound().map(value_of), Some(2.5));
    assert_eq!(search.upper_bound().map(value_of), Some(3.0));
}

#[test]
fn bisecting_after_halving() {
    let mut search = BetaSearch::new();
    search.step(Verdict::Below);
    search.step(Verdict::Below);
    search.step(Verdict::Above);
    assert_eq!(value_of(search.beta()), 0.375);
    assert_eq!(search.lower_bound().map(value_of), Some(0.25));
    assert_eq!(search.upper_bound().map(value_of), Some(0.5));
}

#[test]
fn within_ends_the_search_where_it_stands() {
    let mut search = BetaSearch::new();
    search.step(Verdict::Above);
    search.step(Verdict::Below);
    let before = search.beta();
    search.step(Verdict::Within);
    assert_eq!(search.beta(), before);
    assert_eq!(value_of(search.beta()), 1.5);
    assert!(search.converged());
    assert!(search.is_done());
    assert_eq!(search.evaluations(), 3);
}

#[test]
fn search_accepts_the_first_bandwidth() {
    let search = search_beta(|_| Verdict::Within);
    assert!(search.converged());
    assert_eq!(search.evaluations(), 1);
    assert_eq!(search.beta(), Dyadic { mantissa: 1, shift: 0 });
}

#[test]
fn search_finds_a_whole_bandwidth() {
    let search = search_beta(|beta| judge_against(3.0, beta));
    assert!(search.converged());
    assert_eq!(search.evaluations(), 4);
    assert_eq!(value_of(search.beta()), 3.0);
}

#[test]
fn search_finds_a_fraction() {
    let search = search_beta(|beta| judge_against(0.3125, beta));
    assert!(search.converged());
    assert_eq!(value_of(search.beta()), 0.3125);
    assert_eq!(search.evaluations(), 5);
}

#[test]
fn search_gives_up_after_fifty_measurements() {
    let asked = std::cell::Cell::new(0u32);
    let search = search_beta(|_| {
        asked.set(asked.get() + 1);
        Verdict::Above
    });
    assert_eq!(MAX_EVALUATIONS, 50);
    assert_eq!(asked.get(), 50);
    assert!(!search.converged());
    assert!(search.is_done());
    assert_eq!(search.evaluations(), 50);
    assert_eq!(search.beta(), Dyadic { mantissa: 1 << 50, shift: 0 });
}

#[test]
fn search_halves_fifty_times_at_most() {
    let search = search_beta(|_| Verdict::Below);
    assert!(!search.converged());
    assert_eq!(search.evaluations(), 50);
    assert_eq!(search.beta(), Dyadic { mantissa: 1, shift: 50 });
    assert_eq!(value_of(search.beta()), 0.5f64.powi(50));
}

#[test]
fn search_closes_in_on_an_unreachable_bandwidth() {
    let third = 1.0 / 3.0;
    let search = search_beta(|beta| judge_against(third, beta));
    assert!(!search.converged());
    assert_eq!(search.evaluations(), 50);
    let lower = value_of(search.lower_bound().unwrap());
    let upper = value_of(search.upper_bound().unwrap());
    assert!(lower < third && third < upper);
    assert!(lower < value_of(search.beta()) && value_of(search.beta()) < upper);
    assert_eq!(value_of(search.beta()), (lower + upper) / 2.0);
    assert!(upper - lower < 1e-13);
}

#[test]
fn every_bandwidth_tried_is_exact_in_binary64() {
    let third = 1.0 / 3.0;
    let search = search_beta(|beta| {
        assert!(beta.mantissa > 0);
        assert!(beta.mantissa <= 1 << 50);
        assert!(beta.shift <= 50);
        assert_eq!((beta.mantissa as f64) as u64, beta.mantissa);
        judge_against(third, beta)
    });
    assert!(search.is_done());
}

#[test]
fn search_matches_the_perplexity_of_a_row() {
    let row = [0.0, 1.0, 2.0, 3.0, 5.0, 8.0, 13.0, 21.0];
    for target in [1.5, 2.0, 3.0, 4.5, 6.0] {
        let search = search_beta(|beta| judge_perplexity(&row, 0, target, beta));
        assert!(search.converged());
        assert!(search.evaluations() <= 50);
        let beta = value_of(search.beta());
        assert!(beta > 0.0);
        assert!((perplexity(&row, 0, beta) - target).abs() < 1e-4);
    }
}

#[test]
fn search_matches_the_perplexity_of_an_inner_row() {
    let row = [9.0, 4.0, 1.0, 0.0, 1.0, 4.0, 9.0, 16.0, 25.0];
    let search = search_beta(|beta| judge_perplexity(&row, 3, 3.0, beta));
    assert!(search.converged());
    let beta = value_of(search.beta());
    assert!((perplexity(&row, 3, beta) - 3.0).abs() < 1e-4);
    let p = conditional(&row, 3, beta);
    assert_eq!(p[3], 0.0);
    assert!((p.iter().sum::<f64>() - 1.0).abs() < 1e-9);
}

#[test]
fn search_does_not_fail_on_an_unreachable_perplexity() {
    let row = [0.0, 1.0, 4.0, 9.0];
    let search = search_beta(|beta| judge_perplexity(&row, 0, 4.0, beta));
    assert!(!search.converged());
    assert_eq!(search.evaluations(), 50);
    assert!(value_of(search.beta()) > 0.0);
    assert_eq!(search.beta(), Dyadic { mantissa: 1, shift: 50 });
}
