use offchain_queue::cursors::{
    get_bottom, get_counter, get_top, increment, peek_marker, read_marker, set_bottom, set_top,
    write_marker,
};
use offchain_queue::keys::{derive_key, derive_pcbottom, derive_pctop};
use offchain_queue::ledger::{assign, enqueue};
use offchain_queue::scale::encode_marker;
use offchain_queue::store::{bytes_eq, copy_bytes, ByteMap};

#[test]
fn byte_strings_compare_by_content() {
    assert!(bytes_eq(b"", b""));
    assert!(bytes_eq(b"abc", b"abc"));
    assert!(!bytes_eq(b"abc", b"abd"));
    assert!(!bytes_eq(b"abc", b"ab"));
    assert!(!bytes_eq(b"", b"a"));
    assert_eq!(copy_bytes(b"xyz"), b"xyz".to_vec());
    assert_eq!(copy_bytes(b""), Vec::<u8>::new());
}

#[test]
fn store_starts_empty() {
    let store = ByteMap::new();
    assert_eq!(store.get(b"k"), None);
    assert!(!store.contains_key(b"k"));
    assert!(!store.contains_key(b""));
}

#[test]
fn store_returns_latest_value() {
    let mut store = ByteMap::new();
    store.set(b"k", b"v1");
    store.set(b"other", b"x");
    assert_eq!(store.get(b"k"), Some(&b"v1".to_vec()));
    store.set(b"k", b"v2");
    assert_eq!(store.get(b"k"), Some(&b"v2".to_vec()));
    assert_eq!(store.get(b"other"), Some(&b"x".to_vec()));
    assert!(store.contains_key(b"k"));
    assert!(!store.contains_key(b"K"));
    store.set(b"", b"");
    assert_eq!(store.get(b""), Some(&Vec::<u8>::new()));
}

#[test]
fn cursors_default_to_zero_and_are_initialised_on_first_read() {
    let mut store = ByteMap::new();
    assert!(!store.contains_key(&derive_pcbottom(b"m")));
    assert_eq!(get_bottom(&mut store, b"m"), 0);
    assert_eq!(store.get(&derive_pcbottom(b"m")), Some(&vec![0u8; 8]));
    assert!(!store.contains_key(&derive_pctop(b"m")));
    assert_eq!(get_top(&mut store, b"m"), 0);
    assert_eq!(store.get(&derive_pctop(b"m")), Some(&vec![0u8; 8]));
}

#[test]
fn cursors_read_back_what_was_set() {
    let mut store = ByteMap::new();
    set_top(&mut store, b"m", 9);
    set_bottom(&mut store, b"m", 4);
    assert_eq!(get_top(&mut store, b"m"), 9);
    assert_eq!(get_bottom(&mut store, b"m"), 4);
    assert_eq!(get_top(&mut store, b"n"), 0);
    assert_eq!(store.get(&derive_pctop(b"m")), Some(&encode_marker(9)));
    assert_eq!(store.get(&derive_pcbottom(b"m")), Some(&encode_marker(4)));
    set_bottom(&mut store, b"m", u64::MAX);
    assert_eq!(get_bottom(&mut store, b"m"), u64::MAX);
}

#[test]
fn a_read_does_not_rewrite_a_readable_cursor() {
    let mut store = ByteMap::new();
    store.set(&derive_pctop(b"m"), &[3u8, 0, 0, 0, 0, 0, 0, 0, 0xee]);
    assert_eq!(get_top(&mut store, b"m"), 3);
    assert_eq!(
        store.get(&derive_pctop(b"m")),
        Some(&vec![3u8, 0, 0, 0, 0, 0, 0, 0, 0xee])
    );
}

#[test]
fn an_unreadable_cursor_reads_zero_and_is_rewritten() {
    let mut store = ByteMap::new();
    store.set(&derive_pctop(b"m"), b"17");
    assert_eq!(peek_marker(&store, &derive_pctop(b"m")), None);
    assert_eq!(get_top(&mut store, b"m"), 0);
    assert_eq!(store.get(&derive_pctop(b"m")), Some(&vec![0u8; 8]));
}

#[test]
fn markers_under_plain_keys() {
    let mut store = ByteMap::new();
    assert_eq!(peek_marker(&store, b"k"), None);
    write_marker(&mut store, b"k", 77);
    assert_eq!(peek_marker(&store, b"k"), Some(77));
    assert_eq!(read_marker(&mut store, b"k"), 77);
    assert_eq!(read_marker(&mut store, b"fresh"), 0);
    assert_eq!(peek_marker(&store, b"fresh"), Some(0));
}

#[test]
fn counter_counts_from_one() {
    let mut ledger = ByteMap::new();
    assert_eq!(get_counter(&ledger, b"article_post"), 0);
    assert_eq!(increment(&mut ledger, b"article_post"), Some(1));
    assert_eq!(increment(&mut ledger, b"article_post"), Some(2));
    assert_eq!(increment(&mut ledger, b"other"), Some(1));
    assert_eq!(increment(&mut ledger, b"article_post"), Some(3));
    assert_eq!(get_counter(&ledger, b"article_post"), 3);
    assert_eq!(get_counter(&ledger, b"other"), 1);
    assert_eq!(get_counter(&ledger, b"never"), 0);
    assert!(!ledger.contains_key(b"never"));
}

#[test]
fn counter_at_its_limit_does_not_grow() {
    let mut ledger = ByteMap::new();
    write_marker(&mut ledger, b"m", u64::MAX - 1);
    assert_eq!(increment(&mut ledger, b"m"), Some(u64::MAX));
    assert_eq!(increment(&mut ledger, b"m"), None);
    assert_eq!(get_counter(&ledger, b"m"), u64::MAX);
}

#[test]
fn assignment_derives_what_a_call_writes() {
    let first = assign(0, b"article_post").expect("a number is left");
    assert_eq!(first.nonce, 1);
    assert_eq!(first.slot_key, b"WRITEP:article_post:1".to_vec());
    assert_eq!(first.top_key, b"WRITEP:article_post:top".to_vec());
    assert_eq!(first.marker, vec![1u8, 0, 0, 0, 0, 0, 0, 0]);
    let later = assign(41, b"m").expect("a number is left");
    assert_eq!(later.nonce, 42);
    assert_eq!(later.slot_key, b"WRITEP:m:42".to_vec());
    assert_eq!(later.marker, encode_marker(42));
    assert!(assign(u64::MAX, b"m").is_none());
    assert_eq!(assign(u64::MAX - 1, b"m").expect("one is left").nonce, u64::MAX);
}

#[test]
fn enqueue_writes_counter_slot_and_top() {
    let mut counters = ByteMap::new();
    let mut offchain = ByteMap::new();
    assert_eq!(enqueue(&mut counters, &mut offchain, b"m", b"first"), Some(1));
    assert_eq!(enqueue(&mut counters, &mut offchain, b"m", b"second"), Some(2));
    assert_eq!(get_counter(&counters, b"m"), 2);
    assert_eq!(offchain.get(&derive_key(b"m", 1)), Some(&b"first".to_vec()));
    assert_eq!(offchain.get(&derive_key(b"m", 2)), Some(&b"second".to_vec()));
    assert_eq!(offchain.get(&derive_key(b"m", 3)), None);
    assert_eq!(offchain.get(&derive_key(b"m", 0)), None);
    assert_eq!(peek_marker(&offchain, &derive_pctop(b"m")), Some(2));
    assert_eq!(peek_marker(&offchain, &derive_pcbottom(b"m")), None);
}

#[test]
fn enqueue_without_a_number_left_writes_nothing() {
    let mut counters = ByteMap::new();
    let mut offchain = ByteMap::new();
    write_marker(&mut counters, b"m", u64::MAX);
    assert_eq!(enqueue(&mut counters, &mut offchain, b"m", b"late"), None);
    assert_eq!(get_counter(&counters, b"m"), u64::MAX);
    assert!(!offchain.contains_key(&derive_pctop(b"m")));
    assert!(!offchain.contains_key(&derive_key(b"m", u64::MAX)));
    assert!(!offchain.contains_key(&derive_key(b"m", 0)));
}
