use keyframes::graph::Graph;
use keyframes::interpolate::between;

fn sample_graph() -> Graph {
    // keys {2:10, 6:10, 7:10, 8:10, 10:10, 16:20, 44:10}, added out of order
    let mut g = Graph::new();
    g.add_key(8, 10);
    g.add_key(7, 10);
    g.add_key(10, 10);
    g.add_key(2, 10);
    g.add_key(6, 10);
    g.add_key(16, 20);
    g.add_key(44, 10);
    g
}

#[test]
fn linear_interpolates_between_bounds() {
    let g = sample_graph();
    // between (10, 10) and (16, 20): 10 + (13 - 10) * (20 - 10) / (16 - 10)
    assert_eq!(g.get_linear(13), Some(15));
}

#[test]
fn step_holds_previous_key() {
    let g = sample_graph();
    // nearest key at or before 15 is (10, 10)
    assert_eq!(g.get_step(15), Some(10));
    assert_eq!(g.get_step(10), Some(10));
    assert_eq!(g.get_step(16), Some(20));
    assert_eq!(g.get_step(43), Some(20));
    assert_eq!(g.get_step(44), Some(10));
    assert_eq!(g.get_step(1000), Some(10));
}

#[test]
fn linear_absent_outside_coverage() {
    let g = sample_graph();
    // no key strictly before 1, and none strictly before 2
    assert_eq!(g.get_linear(1), None);
    assert_eq!(g.get_linear(2), None);
    // no key at or after 45
    assert_eq!(g.get_linear(45), None);
    assert_eq!(g.get_linear(1000), None);
}

#[test]
fn step_absent_before_first_key() {
    let g = sample_graph();
    assert_eq!(g.get_step(0), None);
    assert_eq!(g.get_step(1), None);
    assert_eq!(g.get_step(2), Some(10));
}

#[test]
fn linear_exact_at_recorded_keys() {
    let g = sample_graph();
    // every key except the earliest has a left bound, so the
    // reconstruction at its own timestamp is exact
    assert_eq!(g.get_linear(6), Some(10));
    assert_eq!(g.get_linear(7), Some(10));
    assert_eq!(g.get_linear(8), Some(10));
    assert_eq!(g.get_linear(10), Some(10));
    assert_eq!(g.get_linear(16), Some(20));
    assert_eq!(g.get_linear(44), Some(10));
}

#[test]
fn overwrite_keeps_one_key_per_timestamp() {
    let mut g = Graph::new();
    g.add_key(5, 100);
    g.add_key(5, 200);
    assert_eq!(g.len(), 1);
    assert_eq!(g.key_at(0), (5, 200));
    assert_eq!(g.get_step(5), Some(200));
}

#[test]
fn keys_enumerate_in_ascending_time_order() {
    let g = sample_graph();
    assert_eq!(g.len(), 7);
    let expected = [(2, 10), (6, 10), (7, 10), (8, 10), (10, 10), (16, 20), (44, 10)];
    for (i, want) in expected.iter().enumerate() {
        assert_eq!(g.key_at(i), *want);
    }
}

#[test]
fn empty_graph_answers_absent() {
    let g = Graph::new();
    assert_eq!(g.len(), 0);
    assert_eq!(g.get_linear(0), None);
    assert_eq!(g.get_step(0), None);
    assert_eq!(g.get_linear(u64::MAX), None);
    assert_eq!(g.get_step(u64::MAX), None);
}

#[test]
fn single_key_graph() {
    let mut g = Graph::new();
    g.add_key(10, 42);
    // a lone key has no left bound, so the linear query is always absent
    assert_eq!(g.get_linear(10), None);
    assert_eq!(g.get_linear(9), None);
    assert_eq!(g.get_linear(11), None);
    assert_eq!(g.get_step(9), None);
    assert_eq!(g.get_step(10), Some(42));
    assert_eq!(g.get_step(11), Some(42));
}

#[test]
fn between_matches_the_line() {
    // rising slope
    assert_eq!(between(10, 10, 16, 20, 13), 15);
    // endpoints are exact
    assert_eq!(between(10, 10, 16, 20, 10), 10);
    assert_eq!(between(10, 10, 16, 20, 16), 20);
    // falling slope
    assert_eq!(between(16, 20, 44, 10, 44), 10);
    assert_eq!(between(0, 10, 4, -10, 2), 0);
    // rounding is toward negative infinity
    assert_eq!(between(0, 0, 3, 2, 1), 0);
    assert_eq!(between(0, 0, 3, -2, 1), -1);
    // negative values interpolate the same way
    assert_eq!(between(0, -20, 10, -10, 5), -15);
}

#[test]
fn between_handles_extreme_values() {
    assert_eq!(between(0, i64::MIN, u64::MAX, i64::MAX, 0), i64::MIN);
    assert_eq!(between(0, i64::MIN, u64::MAX, i64::MAX, u64::MAX), i64::MAX);
    assert_eq!(between(0, i64::MAX, u64::MAX, i64::MIN, u64::MAX), i64::MIN);
    assert_eq!(between(0, 0, u64::MAX, 1, u64::MAX - 1), 0);
}

#[test]
fn keys_at_extreme_timestamps() {
    let mut g = Graph::new();
    g.add_key(0, 1);
    g.add_key(u64::MAX, 3);
    assert_eq!(g.get_step(0), Some(1));
    assert_eq!(g.get_step(u64::MAX), Some(3));
    assert_eq!(g.get_linear(u64::MAX), Some(3));
    assert_eq!(g.get_linear(0), None);
    // halfway across the full range the line has not yet reached 2
    assert_eq!(g.get_linear(u64::MAX / 2), Some(1));
}
