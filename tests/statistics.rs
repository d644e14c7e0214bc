use game_of_life::statistics::PopulationStatistics;

#[test]
fn test_population_statistics_creation() {
    let stats = PopulationStatistics::new(100);
    assert_eq!(stats.max_history_length(), 100);
    assert!(stats.is_statistics_visible());
    assert!(!stats.has_data());
}

#[test]
fn test_add_population_data() {
    let mut stats = PopulationStatistics::new(3);
    stats.add_population(10);
    stats.add_population(15);
    stats.add_population(12);

    assert_eq!(stats.get_history_length(), 3);
    assert_eq!(stats.get_current_population(), Some(12));
    assert_eq!(stats.get_max_population(), Some(15));
    assert_eq!(stats.get_min_population(), Some(10));
}

#[test]
fn test_history_length_limit() {
    let mut stats = PopulationStatistics::new(2);
    stats.add_population(10);
    stats.add_population(15);
    stats.add_population(12);
    stats.add_population(8);

    assert_eq!(stats.get_history_length(), 2);
    assert_eq!(*stats.get_history(), vec![12, 8]);
}

#[test]
fn test_clear_history() {
    let mut stats = PopulationStatistics::new(10);
    stats.add_population(10);
    stats.add_population(15);

    assert!(stats.has_data());
    stats.clear_history();
    assert!(!stats.has_data());
}

#[test]
fn test_stability_detection() {
    let mut stats = PopulationStatistics::new(10);
    for i in 0..5 {
        stats.add_population(100 + i % 2);
    }

    assert!(stats.is_stable(5, 2));

    stats.add_population(200);
    assert!(!stats.is_stable(6, 2));
}

#[test]
fn empty_statistics_have_no_figures() {
    let stats = PopulationStatistics::default();
    assert_eq!(stats.max_history_length(), 200);
    assert_eq!(stats.get_current_population(), None);
    assert_eq!(stats.get_max_population(), None);
    assert_eq!(stats.get_min_population(), None);
    assert_eq!(stats.get_population_trend(1), None);
    assert!(!stats.is_stable(1, 0));
    assert!(stats.is_stable(0, 0));
}

#[test]
fn zero_bound_keeps_nothing() {
    let mut stats = PopulationStatistics::new(0);
    stats.add_population(5);
    assert!(!stats.has_data());
}

#[test]
fn population_trend() {
    let mut stats = PopulationStatistics::new(10);
    for p in [10, 10, 20, 20] {
        stats.add_population(p);
    }
    assert_eq!(stats.get_population_trend(2), Some(1));
    assert_eq!(stats.get_population_trend(3), None);
    let mut falling = PopulationStatistics::new(10);
    for p in [20, 20, 10, 10] {
        falling.add_population(p);
    }
    assert_eq!(falling.get_population_trend(2), Some(-1));
    let mut flat = PopulationStatistics::new(10);
    for p in [10, 12, 11, 12] {
        flat.add_population(p);
    }
    // averages 11 and 11.5 differ by less than one
    assert_eq!(flat.get_population_trend(2), Some(0));
    // a difference of exactly one per entry is not yet a trend
    let mut edge = PopulationStatistics::new(10);
    for p in [10, 10, 11, 11] {
        edge.add_population(p);
    }
    assert_eq!(edge.get_population_trend(2), Some(0));
    assert_eq!(edge.get_population_trend(0), Some(0));
}

#[test]
fn huge_counts_do_not_overflow() {
    let mut stats = PopulationStatistics::new(4);
    for p in [usize::MAX, usize::MAX, 0, 0] {
        stats.add_population(p);
    }
    assert_eq!(stats.get_population_trend(2), Some(-1));
    assert!(!stats.is_stable(4, 0));
    assert!(stats.is_stable(2, 0));
    assert_eq!(stats.get_max_population(), Some(usize::MAX));
}

#[test]
fn visibility_toggles() {
    let mut stats = PopulationStatistics::new(3);
    stats.set_statistics_visible(false);
    assert!(!stats.is_statistics_visible());
    stats.set_statistics_visible(true);
    assert!(stats.is_statistics_visible());
}
