use simgrid::codec::encode_words;
use simgrid::error::SimError;
use simgrid::metric::Metric;
use simgrid::query::prepare_similarity;
use simgrid::store::Store;
use simgrid::tensor::Shape;

#[test]
fn metric_parse_covers_the_enumerated_set() {
    assert_eq!(Metric::parse("cosine"), Ok(Metric::Cosine));
    assert_eq!(Metric::parse("cosine_centered"), Ok(Metric::CosineCentered));
    assert_eq!(Metric::parse("euclidean"), Ok(Metric::Euclidean));
    assert_eq!(Metric::parse("manhattan"), Ok(Metric::Manhattan));
    assert_eq!(Metric::parse("chebyshev"), Ok(Metric::Chebyshev));
    assert_eq!(Metric::parse("dot"), Err(SimError::InvalidMetric));
    assert_eq!(Metric::parse(""), Err(SimError::InvalidMetric));
    assert_eq!(Metric::parse("Cosine"), Err(SimError::InvalidMetric));
}

#[test]
fn normalization_applies_to_distances_only() {
    assert!(!Metric::Cosine.needs_normalization());
    assert!(!Metric::CosineCentered.needs_normalization());
    assert!(Metric::Euclidean.needs_normalization());
    assert!(Metric::Manhattan.needs_normalization());
    assert!(Metric::Chebyshev.needs_normalization());
    assert!(Metric::CosineCentered.uses_means());
    assert!(!Metric::Cosine.uses_means());
}

/// 2 steps, 2 x 2 grid, 3 channels; words are distinct so every extracted
/// window is recognizable.
fn loaded_store() -> Store {
    let shape = Shape::checked(2, 2, 3).expect("shape fits");
    let mut store = Store::new();
    // Tensor 1: words 0..24; tensor 2: words 1000..1024.
    let w1: Vec<u16> = (0..24u16).collect();
    let w2: Vec<u16> = (1000..1024u16).collect();
    // Norms: 2 steps * 4 cells; means: 2 steps * 3 channels.
    let norms1: Vec<u32> = (10..18u32).collect();
    let norms2: Vec<u32> = (20..28u32).collect();
    let means1: Vec<u32> = (30..36u32).collect();
    let means2: Vec<u32> = (40..46u32).collect();
    store
        .ensure("one".to_string(), &encode_words(&w1), shape, norms1, means1)
        .expect("loads");
    store
        .ensure("two".to_string(), &encode_words(&w2), shape, norms2, means2)
        .expect("loads");
    store
}

#[test]
fn missing_sources_are_not_loaded() {
    let store = loaded_store();
    let r = prepare_similarity(&store, "cosine", "one", "missing", 0, 0, 0, 0);
    assert_eq!(r.err(), Some(SimError::NotLoaded));
    let r = prepare_similarity(&store, "cosine", "missing", "two", 0, 0, 0, 0);
    assert_eq!(r.err(), Some(SimError::NotLoaded));
    // A missing source is reported before the metric name is inspected.
    let r = prepare_similarity(&store, "no_such_metric", "missing", "two", 0, 0, 0, 0);
    assert_eq!(r.err(), Some(SimError::NotLoaded));
}

#[test]
fn unknown_metric_is_invalid_argument() {
    let store = loaded_store();
    let r = prepare_similarity(&store, "no_such_metric", "one", "two", 0, 0, 0, 0);
    assert_eq!(r.err(), Some(SimError::InvalidMetric));
}

#[test]
fn plan_extracts_the_selected_windows() {
    let store = loaded_store();
    // Query cell (row 1, col 0) = cell 2 at step 1 of tensor 1, against step 0
    // of tensor 2.
    let p = prepare_similarity(&store, "cosine_centered", "one", "two", 1, 0, 1, 0)
        .expect("plans");
    assert_eq!(p.metric, Metric::CosineCentered);
    assert_eq!(p.n, 2);
    assert_eq!(p.m, 3);
    // Base: words of cell 2 at step 1 of tensor 1, flat (1 * 4 + 2) * 3 = 18.
    assert_eq!(p.base, vec![18u16, 19, 20]);
    // Base norm: index step1 * cells + cell = 1 * 4 + 2 = 6.
    assert_eq!(p.base_norm, 16);
    // Targets: the whole step 0 block of tensor 2.
    let expect: Vec<u16> = (1000..1012u16).collect();
    assert_eq!(p.targets, expect);
    // Target norms: cells of step 0 of tensor 2.
    assert_eq!(p.target_norms, vec![20u32, 21, 22, 23]);
    // Means: channels of step 1 of entry 1 and step 0 of entry 2.
    assert_eq!(p.base_means, vec![33u32, 34, 35]);
    assert_eq!(p.target_means, vec![40u32, 41, 42]);
}

#[test]
fn target_block_is_row_major_by_cell() {
    let store = loaded_store();
    let p = prepare_similarity(&store, "euclidean", "one", "two", 0, 1, 0, 0).expect("plans");
    // Step 1 of tensor 2 starts at word 1000 + 12; cell (i, j) occupies the
    // window (i * 2 + j) * 3 .. + 3.
    for i in 0..2u16 {
        for j in 0..2u16 {
            let cell = (i * 2 + j) as usize;
            let window = &p.targets[cell * 3..cell * 3 + 3];
            let base = 1012 + (cell as u16) * 3;
            assert_eq!(window, &[base, base + 1, base + 2]);
        }
    }
}

#[test]
fn self_comparison_reads_one_bit_pattern() {
    let store = loaded_store();
    // Same source, same step: the target window of the queried cell holds
    // exactly the base vector, and the norms agree — every metric then folds
    // a vector against its own bits.
    let p = prepare_similarity(&store, "cosine", "one", "one", 1, 1, 0, 1).expect("plans");
    let cell = 0 * 2 + 1;
    assert_eq!(&p.targets[cell * 3..cell * 3 + 3], &p.base[..]);
    assert_eq!(p.target_norms[cell], p.base_norm);
}
