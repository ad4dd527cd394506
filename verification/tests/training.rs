use my_torch_analyzer::training::{
    batch_ranges, seeded_order, shuffled_order, EpochLoop, SPLIT_SEED,
};
use rand::rngs::StdRng;
use rand::SeedableRng;

fn run(epochs: usize, patience: usize, improved: &[bool]) -> (EpochLoop, Vec<usize>, Option<usize>) {
    let mut state = EpochLoop::new(epochs, patience);
    let mut ran = Vec::new();
    let mut stopped_at = None;
    let mut flags = improved.iter();
    while let Some(epoch) = state.current() {
        ran.push(epoch);
        if state.validated(*flags.next().unwrap()) {
            stopped_at = Some(epoch);
        }
    }
    (state, ran, stopped_at)
}

#[test]
fn early_stopping() {
    let mut improved = vec![true, false, true, true, true];
    improved.extend(vec![false; 20]);
    let (state, ran, stopped_at) = run(25, 3, &improved);
    assert_eq!(stopped_at, Some(4 + 3));
    assert_eq!(ran, (0..=7).collect::<Vec<usize>>());
    assert!(state.stopped);
    assert_eq!(state.epoch, 7);
    assert_eq!(state.patience, 3);
}

#[test]
fn early_stopping_with_patience_of_one() {
    let (state, ran, stopped_at) = run(10, 1, &[true, true, false, true]);
    assert_eq!(stopped_at, Some(2));
    assert_eq!(ran, vec![0, 1, 2]);
    assert_eq!(state.epoch, 2);
}

#[test]
fn a_run_that_improves_runs_every_epoch() {
    let (state, ran, stopped_at) = run(6, 2, &[true, false, true, false, true, false]);
    assert_eq!(stopped_at, None);
    assert_eq!(ran, vec![0, 1, 2, 3, 4, 5]);
    assert!(!state.stopped);
    assert_eq!(state.epoch, 6);
    assert_eq!(state.current(), None);
}

#[test]
fn a_run_of_no_epoch_runs_none() {
    let mut state = EpochLoop::new(0, 5);
    assert_eq!(state.current(), None);
    assert!(!state.validated(false));
    assert_eq!(state, EpochLoop::new(0, 5));
}

#[test]
fn divergence_stops_the_run() {
    let mut state = EpochLoop::new(10, 5);
    assert!(!state.validated(true));
    assert!(!state.validated(false));
    let report = state.diverged("NaN bias at layer 0, neuron 1");
    assert_eq!(report, "Training diverged at epoch 2: NaN bias at layer 0, neuron 1");
    assert_eq!(state.current(), None);
    assert!(state.stopped);
}

#[test]
fn batches_cover_the_examples() {
    assert_eq!(batch_ranges(10, 4), vec![(0, 4), (4, 8), (8, 10)]);
    assert_eq!(batch_ranges(8, 4), vec![(0, 4), (4, 8)]);
    assert_eq!(batch_ranges(3, 4), vec![(0, 3)]);
    assert_eq!(batch_ranges(0, 4), Vec::new());
    assert_eq!(batch_ranges(3, 1), vec![(0, 1), (1, 2), (2, 3)]);
    assert_eq!(batch_ranges(usize::MAX, usize::MAX), vec![(0, usize::MAX)]);
}

#[test]
fn a_shuffled_order_visits_every_example_once() {
    let mut rng = StdRng::seed_from_u64(42);
    let order = shuffled_order(100, &mut rng);
    assert_eq!(order.len(), 100);
    assert_ne!(order, (0..100).collect::<Vec<usize>>());
    let mut sorted = order.clone();
    sorted.sort();
    assert_eq!(sorted, (0..100).collect::<Vec<usize>>());
    let again = shuffled_order(100, &mut StdRng::seed_from_u64(42));
    assert_eq!(again, order);
    assert!(shuffled_order(0, &mut rng).is_empty());
    assert_eq!(shuffled_order(1, &mut rng), vec![0]);
}

#[test]
fn a_seeded_order_is_the_order_of_the_seeded_generator() {
    assert_eq!(SPLIT_SEED, 42);
    let order = seeded_order(50, SPLIT_SEED);
    assert_eq!(order, shuffled_order(50, &mut StdRng::seed_from_u64(42)));
    assert_eq!(order, seeded_order(50, 42));
    assert_ne!(order, seeded_order(50, 43));
    let mut data: Vec<usize> = (0..50).collect();
    rand::seq::SliceRandom::shuffle(&mut data[..], &mut StdRng::seed_from_u64(42));
    assert_eq!(order, data);
}
