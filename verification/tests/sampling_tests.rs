use kv_router::sampling::{equally_likely, sample_with_draw, softmax_sample, Candidate, Sample};

fn logits(entries: &[(i64, i128)]) -> Vec<Candidate> {
    entries
        .iter()
        .map(|&(worker_id, cost)| Candidate { worker_id, cost })
        .collect()
}

#[test]
fn test_softmax_sample_single_key() {
    // With a single key, softmax_sample always returns that key.
    let worker_id = 42;
    let mut single = logits(&[(worker_id, 500)]);

    // 0.1, 1.0 and 10.0 in thousandths
    for temperature in &[100u32, 1000, 10 * 1000] {
        let result = softmax_sample(&single, *temperature);
        assert_eq!(
            result,
            Sample::Key(worker_id),
            "Should return the only available worker"
        );
    }

    single.clear();
    single.push(Candidate { worker_id, cost: -100 * 1000 });
    assert_eq!(softmax_sample(&single, 1000), Sample::Key(worker_id));

    single.clear();
    single.push(Candidate { worker_id, cost: 100 * 1000 });
    assert_eq!(softmax_sample(&single, 1000), Sample::Key(worker_id));

    single.clear();
    single.push(Candidate { worker_id, cost: 0 });
    assert_eq!(softmax_sample(&single, 1000), Sample::Key(worker_id));
}

#[test]
fn test_softmax_sample_zero_temperature() {
    // With temperature 0, softmax_sample returns the key with smallest logit.
    let mut costs = logits(&[(1, 5000), (2, 3000), (3, 7000), (4, 3500)]);

    for _ in 0..10 {
        let result = softmax_sample(&costs, 0);
        assert_eq!(
            result,
            Sample::Key(2),
            "Should return worker with smallest logit when temperature is 0"
        );
    }

    costs.clear();
    costs.push(Candidate { worker_id: 10, cost: -1000 });
    costs.push(Candidate { worker_id: 20, cost: -5000 });
    costs.push(Candidate { worker_id: 30, cost: 0 });

    let result = softmax_sample(&costs, 0);
    assert_eq!(result, Sample::Key(20), "Should handle negative logits correctly");
}

#[test]
fn single_key_at_zero_temperature() {
    let single = logits(&[(42, 123)]);
    assert_eq!(softmax_sample(&single, 0), Sample::Key(42));
    for draw in 0..5usize {
        assert_eq!(sample_with_draw(&single, 0, draw), Sample::Key(42));
        assert_eq!(sample_with_draw(&single, 700, draw), Sample::Key(42));
    }
}

#[test]
fn zero_temperature_ties_follow_the_draw() {
    let costs = logits(&[(1, 9), (2, 4), (3, 4), (4, 11), (5, 4)]);
    assert_eq!(equally_likely(&costs, 0), vec![2, 3, 5]);
    assert_eq!(sample_with_draw(&costs, 0, 0), Sample::Key(2));
    assert_eq!(sample_with_draw(&costs, 0, 1), Sample::Key(3));
    assert_eq!(sample_with_draw(&costs, 0, 2), Sample::Key(5));
    assert_eq!(sample_with_draw(&costs, 0, 3), Sample::Key(2));
    assert_eq!(sample_with_draw(&costs, 0, 7), Sample::Key(3));
}

#[test]
fn equal_costs_are_uniform_at_any_temperature() {
    let costs = logits(&[(8, 30), (6, 30), (7, 30)]);
    assert_eq!(equally_likely(&costs, 1000), vec![8, 6, 7]);
    assert_eq!(sample_with_draw(&costs, 1000, 0), Sample::Key(8));
    assert_eq!(sample_with_draw(&costs, 1000, 1), Sample::Key(6));
    assert_eq!(sample_with_draw(&costs, 1000, 2), Sample::Key(7));
    assert_eq!(sample_with_draw(&costs, 250, 4), Sample::Key(6));
}

#[test]
fn distinct_costs_with_temperature_are_weighted() {
    let costs = logits(&[(1, 10), (2, 20)]);
    assert_eq!(softmax_sample(&costs, 1), Sample::Weighted);
    assert_eq!(sample_with_draw(&costs, 1000, 0), Sample::Weighted);
    assert!(equally_likely(&costs, 1000).is_empty());
}

#[test]
fn random_draw_stays_among_the_outcomes() {
    // A draw that fell outside the outcomes would index past their end.
    let costs = logits(&[(11, 5), (12, 5), (13, 5)]);
    let mut seen = [false; 3];
    for _ in 0..400 {
        match softmax_sample(&costs, 500) {
            Sample::Key(key) => {
                assert!((11..=13).contains(&key));
                seen[(key - 11) as usize] = true;
            }
            Sample::Weighted => panic!("equal costs need no weights"),
        }
    }
    assert!(seen.iter().all(|&s| s));

    let tied = logits(&[(1, 2), (2, 1), (3, 1)]);
    for _ in 0..100 {
        let sample = softmax_sample(&tied, 0);
        assert!(sample == Sample::Key(2) || sample == Sample::Key(3));
    }
}
