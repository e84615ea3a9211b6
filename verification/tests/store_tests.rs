use simgrid::codec::encode_words;
use simgrid::error::{FormatFault, SimError};
use simgrid::store::{CacheEntry, Store};
use simgrid::tensor::{decode_blob, Shape};

fn blob(words: &Vec<u16>) -> Vec<u8> {
    encode_words(words)
}

fn small_shape() -> Shape {
    // 1 step, 2 x 2 grid, 3 channels: 12 elements.
    Shape::checked(1, 2, 3).expect("shape fits")
}

fn small_words() -> Vec<u16> {
    (0..12u16).collect()
}

#[test]
fn shape_checked_accepts_and_rejects() {
    assert!(Shape::checked(1, 2, 3).is_some());
    assert!(Shape::checked(0, 0, 0).is_some());
    assert!(Shape::checked(usize::MAX, usize::MAX, usize::MAX).is_none());
}

#[test]
fn decode_rejects_odd_length() {
    let shape = small_shape();
    let mut bytes = blob(&small_words());
    bytes.push(0xAB);
    let r = decode_blob(&bytes, shape);
    assert_eq!(r.err(), Some(SimError::Format(FormatFault::OddLength)));
}

#[test]
fn decode_rejects_count_mismatch() {
    let shape = small_shape();
    let words: Vec<u16> = (0..10u16).collect();
    let r = decode_blob(&blob(&words), shape);
    assert_eq!(r.err(), Some(SimError::Format(FormatFault::CountMismatch)));
}

#[test]
fn decode_accepts_exact_blob() {
    let shape = small_shape();
    let t = decode_blob(&blob(&small_words()), shape).expect("decodes");
    assert_eq!(t.data, small_words());
    assert_eq!(t.shape, shape);
}

#[test]
fn element_reads_the_flat_layout() {
    let shape = Shape::checked(2, 2, 3).expect("shape fits");
    let words: Vec<u16> = (0..24u16).collect();
    let t = decode_blob(&blob(&words), shape).expect("decodes");
    // (step, row, col, chan) sits at ((step * 4 + row * 2 + col) * 3 + chan).
    assert_eq!(t.element(0, 0, 0, 0), 0);
    assert_eq!(t.element(0, 1, 0, 2), 8);
    assert_eq!(t.element(1, 0, 1, 1), 16);
    assert_eq!(t.element(1, 1, 1, 2), 23);
}

#[test]
fn entry_checked_validates_statistics_lengths() {
    let shape = small_shape();
    let t = decode_blob(&blob(&small_words()), shape).expect("decodes");
    // 1 step * 4 cells norms, 1 step * 3 channels means.
    assert!(CacheEntry::checked(t, vec![0u32; 4], vec![0u32; 3]).is_some());
    let t = decode_blob(&blob(&small_words()), shape).expect("decodes");
    assert!(CacheEntry::checked(t, vec![0u32; 5], vec![0u32; 3]).is_none());
    let t = decode_blob(&blob(&small_words()), shape).expect("decodes");
    assert!(CacheEntry::checked(t, vec![0u32; 4], vec![0u32; 2]).is_none());
}

#[test]
fn get_absent_is_none() {
    let store = Store::new();
    assert!(store.get("nowhere").is_none());
    assert!(!store.contains_id("nowhere"));
}

#[test]
fn ensure_inserts_once_first_write_wins() {
    let mut store = Store::new();
    let shape = small_shape();
    let first = small_words();
    let fresh = store
        .ensure("a".to_string(), &blob(&first), shape, vec![0u32; 4], vec![0u32; 3])
        .expect("loads");
    assert!(fresh);

    // A second load of the same identifier does no decode and changes nothing,
    // even though it hands in different bytes and statistics.
    let second: Vec<u16> = (100..112u16).collect();
    let fresh = store
        .ensure("a".to_string(), &blob(&second), shape, vec![9u32; 4], vec![9u32; 3])
        .expect("no-op");
    assert!(!fresh);

    let entry = store.get("a").expect("present");
    assert_eq!(entry.tensor.data, first);
    assert_eq!(entry.stats.norms, vec![0u32; 4]);
    assert_eq!(entry.stats.means, vec![0u32; 3]);
}

#[test]
fn ensure_second_observer_sees_same_entry() {
    let mut store = Store::new();
    let shape = small_shape();
    store
        .ensure("k".to_string(), &blob(&small_words()), shape, vec![1u32; 4], vec![2u32; 3])
        .expect("loads");
    store
        .ensure("k".to_string(), &blob(&small_words()), shape, vec![7u32; 4], vec![7u32; 3])
        .expect("no-op");
    let a = store.get("k").expect("present");
    let b = store.get("k").expect("present");
    assert_eq!(a.tensor.data, b.tensor.data);
    assert_eq!(a.stats.norms, b.stats.norms);
    assert_eq!(a.stats.norms, vec![1u32; 4]);
}

#[test]
fn failed_ensure_leaves_store_unchanged() {
    let mut store = Store::new();
    let shape = small_shape();
    let mut bytes = blob(&small_words());
    bytes.push(0x01);
    let r = store.ensure("bad".to_string(), &bytes, shape, vec![0u32; 4], vec![0u32; 3]);
    assert_eq!(r.err(), Some(SimError::Format(FormatFault::OddLength)));
    assert!(store.get("bad").is_none());

    let short: Vec<u16> = (0..6u16).collect();
    let r = store.ensure("bad".to_string(), &blob(&short), shape, vec![0u32; 4], vec![0u32; 3]);
    assert_eq!(r.err(), Some(SimError::Format(FormatFault::CountMismatch)));
    assert!(!store.contains_id("bad"));
}

#[test]
fn distinct_ids_keep_distinct_entries() {
    let mut store = Store::new();
    let shape = small_shape();
    let w1 = small_words();
    let w2: Vec<u16> = (50..62u16).collect();
    store
        .ensure("x".to_string(), &blob(&w1), shape, vec![0u32; 4], vec![0u32; 3])
        .expect("loads");
    store
        .ensure("y".to_string(), &blob(&w2), shape, vec![0u32; 4], vec![0u32; 3])
        .expect("loads");
    assert_eq!(store.get("x").expect("present").tensor.data, w1);
    assert_eq!(store.get("y").expect("present").tensor.data, w2);
}
