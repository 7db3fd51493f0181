use offchain_queue::cursors::{peek_marker, set_bottom, set_top};
use offchain_queue::dispatch::{classify, drain, run_cycle, Cursor, Outcome, Phase, SlotRecord};
use offchain_queue::keys::{derive_key, derive_pcbottom, derive_pctop};
use offchain_queue::registry::{ArticleIndex, Handler, HandlerError, Method, WorkItem};
use offchain_queue::store::ByteMap;
use parity_scale_codec::Encode;

const NAME: &[u8] = b"article_post";

fn article_payload(id: &[u8], hash: &[u8]) -> Vec<u8> {
    let mut out: Vec<u8> = Vec::new();
    out.extend(id.to_vec().encode());
    for _ in 0..8 {
        out.extend(Vec::<u8>::new().encode());
    }
    out.extend(0u16.encode());
    out.extend(0u16.encode());
    out.extend(0u64.encode());
    out.extend(0u64.encode());
    out.extend(hash.to_vec().encode());
    out
}

fn store_with(top: u64, bottom: u64, slots: &[(u64, Vec<u8>)]) -> ByteMap {
    let mut store = ByteMap::new();
    set_top(&mut store, NAME, top);
    set_bottom(&mut store, NAME, bottom);
    for (seq, payload) in slots {
        store.set(&derive_key(NAME, *seq), payload);
    }
    store
}

fn bottom(store: &ByteMap) -> Option<u64> {
    peek_marker(store, &derive_pcbottom(NAME))
}

fn top(store: &ByteMap) -> Option<u64> {
    peek_marker(store, &derive_pctop(NAME))
}

fn record(seq: u64, outcome: Outcome) -> SlotRecord {
    SlotRecord { method: Method::ArticlePost, seq, outcome }
}

/// Answers by article identifier and writes down what it was given.
struct Scripted {
    retry: Vec<Vec<u8>>,
    reject: Vec<Vec<u8>>,
    seen: Vec<Vec<u8>>,
}

impl Scripted {
    fn new(retry: &[&[u8]], reject: &[&[u8]]) -> Scripted {
        Scripted {
            retry: retry.iter().map(|id| id.to_vec()).collect(),
            reject: reject.iter().map(|id| id.to_vec()).collect(),
            seen: Vec::new(),
        }
    }
}

impl Handler for Scripted {
    fn apply(&mut self, item: &WorkItem) -> Result<(), HandlerError> {
        match item {
            WorkItem::ArticlePost(article) => {
                self.seen.push(article.id.clone());
                if self.retry.contains(&article.id) {
                    Err(HandlerError::Retryable)
                } else if self.reject.contains(&article.id) {
                    Err(HandlerError::Permanent)
                } else {
                    Ok(())
                }
            }
        }
    }
}

#[test]
fn outcomes_that_move_the_cursor() {
    assert!(Outcome::Applied.is_advancing());
    assert!(Outcome::DecodeError.is_advancing());
    assert!(Outcome::Permanent.is_advancing());
    assert!(!Outcome::SlotMissing.is_advancing());
    assert!(!Outcome::Retryable.is_advancing());
}

#[test]
fn outcomes_that_are_recorded_as_failures() {
    assert!(Outcome::DecodeError.is_recorded_failure());
    assert!(Outcome::Permanent.is_recorded_failure());
    assert!(!Outcome::Applied.is_recorded_failure());
    assert!(!Outcome::SlotMissing.is_recorded_failure());
    assert!(!Outcome::Retryable.is_recorded_failure());
}

#[test]
fn handler_results_are_classified() {
    assert_eq!(classify(Ok(())), Outcome::Applied);
    assert_eq!(classify(Err(HandlerError::Retryable)), Outcome::Retryable);
    assert_eq!(classify(Err(HandlerError::Permanent)), Outcome::Permanent);
}

#[test]
fn cursor_is_idle_when_bottom_meets_top() {
    let cursor = Cursor::resume(0, 0);
    assert_eq!(cursor.phase(), Phase::Idle);
    assert_eq!(cursor.next_slot(), None);
    let cursor = Cursor::resume(5, 5);
    assert_eq!(cursor.phase(), Phase::Idle);
    assert_eq!(cursor.next_slot(), None);
    let cursor = Cursor::resume(6, 5);
    assert_eq!(cursor.phase(), Phase::Idle);
    assert_eq!(cursor.next_slot(), None);
}

#[test]
fn cursor_takes_the_slot_after_bottom() {
    let cursor = Cursor::resume(0, 1);
    assert_eq!(cursor.phase(), Phase::Draining);
    assert_eq!(cursor.next_slot(), Some(1));
    let cursor = Cursor::resume(4, 6);
    assert_eq!(cursor.next_slot(), Some(5));
    let cursor = Cursor::resume(u64::MAX - 1, u64::MAX);
    assert_eq!(cursor.next_slot(), Some(u64::MAX));
}

#[test]
fn cursor_moves_past_a_finished_slot() {
    for outcome in [Outcome::Applied, Outcome::DecodeError, Outcome::Permanent] {
        let next = Cursor::resume(4, 6).settle(outcome);
        assert_eq!(next, Cursor { bottom: 5, top: 6, halted: false });
        assert_eq!(next.phase(), Phase::Draining);
        let last = next.settle(outcome);
        assert_eq!(last, Cursor { bottom: 6, top: 6, halted: false });
        assert_eq!(last.phase(), Phase::Idle);
    }
}

#[test]
fn cursor_halts_before_an_unfinished_slot() {
    for outcome in [Outcome::SlotMissing, Outcome::Retryable] {
        let next = Cursor::resume(4, 6).settle(outcome);
        assert_eq!(next, Cursor { bottom: 4, top: 6, halted: true });
        assert_eq!(next.phase(), Phase::Idle);
        assert_eq!(next.next_slot(), None);
    }
}

#[test]
fn cycle_on_an_empty_store_initialises_the_cursors() {
    let mut store = ByteMap::new();
    let mut handler = Scripted::new(&[], &[]);
    let report = run_cycle(&mut store, &mut handler);
    assert!(report.is_empty());
    assert!(handler.seen.is_empty());
    assert_eq!(bottom(&store), Some(0));
    assert_eq!(top(&store), Some(0));
}

#[test]
fn idle_cycle_changes_nothing() {
    let mut store = store_with(3, 3, &[(1, b"x".to_vec()), (4, article_payload(b"a4", b"h"))]);
    let mut handler = Scripted::new(&[], &[]);
    let report = run_cycle(&mut store, &mut handler);
    assert!(report.is_empty());
    assert!(handler.seen.is_empty());
    assert_eq!(bottom(&store), Some(3));
    assert_eq!(top(&store), Some(3));
    assert_eq!(store.get(&derive_key(NAME, 1)), Some(&b"x".to_vec()));
    assert_eq!(store.get(&derive_key(NAME, 4)), Some(&article_payload(b"a4", b"h")));
}

#[test]
fn cycle_drains_every_slot_in_order() {
    let mut store = store_with(
        3,
        0,
        &[
            (1, article_payload(b"a1", b"h1")),
            (2, article_payload(b"a2", b"h2")),
            (3, article_payload(b"a3", b"h3")),
        ],
    );
    let mut handler = Scripted::new(&[], &[]);
    let report = run_cycle(&mut store, &mut handler);
    assert_eq!(
        report,
        vec![
            record(1, Outcome::Applied),
            record(2, Outcome::Applied),
            record(3, Outcome::Applied),
        ]
    );
    assert_eq!(handler.seen, vec![b"a1".to_vec(), b"a2".to_vec(), b"a3".to_vec()]);
    assert_eq!(bottom(&store), Some(3));
    assert_eq!(top(&store), Some(3));
    assert_eq!(store.get(&derive_key(NAME, 2)), Some(&article_payload(b"a2", b"h2")));
}

#[test]
fn cycle_resumes_after_the_bottom_cursor() {
    let mut store = store_with(
        3,
        2,
        &[
            (1, article_payload(b"a1", b"h1")),
            (2, article_payload(b"a2", b"h2")),
            (3, article_payload(b"a3", b"h3")),
        ],
    );
    let mut handler = Scripted::new(&[], &[]);
    let report = run_cycle(&mut store, &mut handler);
    assert_eq!(report, vec![record(3, Outcome::Applied)]);
    assert_eq!(handler.seen, vec![b"a3".to_vec()]);
    assert_eq!(bottom(&store), Some(3));
}

#[test]
fn gap_leaves_the_bottom_cursor() {
    let mut store = store_with(3, 1, &[(1, article_payload(b"a1", b"h1")), (3, article_payload(b"a3", b"h3"))]);
    let mut handler = Scripted::new(&[], &[]);
    let report = run_cycle(&mut store, &mut handler);
    assert_eq!(report, vec![record(2, Outcome::SlotMissing)]);
    assert!(handler.seen.is_empty());
    assert_eq!(bottom(&store), Some(1));
    assert_eq!(top(&store), Some(3));
    store.set(&derive_key(NAME, 2), &article_payload(b"a2", b"h2"));
    let report = run_cycle(&mut store, &mut handler);
    assert_eq!(report, vec![record(2, Outcome::Applied), record(3, Outcome::Applied)]);
    assert_eq!(handler.seen, vec![b"a2".to_vec(), b"a3".to_vec()]);
    assert_eq!(bottom(&store), Some(3));
}

#[test]
fn gap_after_progress_keeps_the_progress() {
    let mut store = store_with(4, 0, &[(1, article_payload(b"a1", b"h1")), (2, article_payload(b"a2", b"h2"))]);
    let mut handler = Scripted::new(&[], &[]);
    let report = run_cycle(&mut store, &mut handler);
    assert_eq!(
        report,
        vec![
            record(1, Outcome::Applied),
            record(2, Outcome::Applied),
            record(3, Outcome::SlotMissing),
        ]
    );
    assert_eq!(bottom(&store), Some(2));
}

#[test]
fn retryable_failure_holds_back_later_slots() {
    let mut store = store_with(
        3,
        0,
        &[
            (1, article_payload(b"a1", b"h1")),
            (2, article_payload(b"a2", b"h2")),
            (3, article_payload(b"a3", b"h3")),
        ],
    );
    let mut handler = Scripted::new(&[b"a2"], &[]);
    let report = run_cycle(&mut store, &mut handler);
    assert_eq!(report, vec![record(1, Outcome::Applied), record(2, Outcome::Retryable)]);
    assert_eq!(handler.seen, vec![b"a1".to_vec(), b"a2".to_vec()]);
    assert_eq!(bottom(&store), Some(1));
    let report = run_cycle(&mut store, &mut handler);
    assert_eq!(report, vec![record(2, Outcome::Retryable)]);
    assert_eq!(bottom(&store), Some(1));
    assert!(!handler.seen.contains(&b"a3".to_vec()));
    handler.retry.clear();
    let report = run_cycle(&mut store, &mut handler);
    assert_eq!(report, vec![record(2, Outcome::Applied), record(3, Outcome::Applied)]);
    assert_eq!(bottom(&store), Some(3));
    assert_eq!(
        handler.seen,
        vec![
            b"a1".to_vec(),
            b"a2".to_vec(),
            b"a2".to_vec(),
            b"a2".to_vec(),
            b"a3".to_vec(),
        ]
    );
}

#[test]
fn retryable_failure_released_as_permanent() {
    let mut store = store_with(2, 0, &[(1, article_payload(b"a1", b"h1")), (2, article_payload(b"a2", b"h2"))]);
    let mut handler = Scripted::new(&[b"a1"], &[]);
    assert_eq!(run_cycle(&mut store, &mut handler), vec![record(1, Outcome::Retryable)]);
    assert_eq!(bottom(&store), Some(0));
    handler.retry.clear();
    handler.reject.push(b"a1".to_vec());
    assert_eq!(
        run_cycle(&mut store, &mut handler),
        vec![record(1, Outcome::Permanent), record(2, Outcome::Applied)]
    );
    assert_eq!(bottom(&store), Some(2));
}

#[test]
fn permanent_failure_is_skipped() {
    let mut store = store_with(
        3,
        0,
        &[
            (1, article_payload(b"a1", b"h1")),
            (2, article_payload(b"a2", b"h2")),
            (3, article_payload(b"a3", b"h3")),
        ],
    );
    let mut handler = Scripted::new(&[], &[b"a2"]);
    let report = run_cycle(&mut store, &mut handler);
    assert_eq!(
        report,
        vec![
            record(1, Outcome::Applied),
            record(2, Outcome::Permanent),
            record(3, Outcome::Applied),
        ]
    );
    assert_eq!(bottom(&store), Some(3));
    let failures: Vec<u64> = report
        .iter()
        .filter(|line| line.outcome.is_recorded_failure())
        .map(|line| line.seq)
        .collect();
    assert_eq!(failures, vec![2]);
}

#[test]
fn malformed_slot_is_skipped_without_reaching_the_handler() {
    let mut store = store_with(
        6,
        4,
        &[(5, b"\xff\xff malformed".to_vec()), (6, article_payload(b"a6", b"h6"))],
    );
    let mut handler = Scripted::new(&[], &[]);
    let report = run_cycle(&mut store, &mut handler);
    assert_eq!(report, vec![record(5, Outcome::DecodeError), record(6, Outcome::Applied)]);
    assert_eq!(handler.seen, vec![b"a6".to_vec()]);
    assert_eq!(bottom(&store), Some(6));
}

#[test]
fn malformed_last_slot_moves_the_cursor_by_one() {
    let mut store = store_with(5, 4, &[(5, Vec::new())]);
    let mut handler = Scripted::new(&[], &[]);
    let report = run_cycle(&mut store, &mut handler);
    assert_eq!(report, vec![record(5, Outcome::DecodeError)]);
    assert!(handler.seen.is_empty());
    assert_eq!(bottom(&store), Some(5));
}

#[test]
fn bottom_never_decreases_and_never_passes_top() {
    let mut store = store_with(
        4,
        0,
        &[
            (1, article_payload(b"a1", b"h1")),
            (2, b"junk".to_vec()),
            (4, article_payload(b"a4", b"h4")),
        ],
    );
    let mut handler = Scripted::new(&[b"a4"], &[b"a1"]);
    let mut last = 0;
    for round in 0..6 {
        if round == 2 {
            store.set(&derive_key(NAME, 3), &article_payload(b"a3", b"h3"));
        }
        if round == 4 {
            handler.retry.clear();
        }
        run_cycle(&mut store, &mut handler);
        let now = bottom(&store).expect("the cursor is initialised");
        assert!(now >= last);
        assert!(now <= 4);
        assert_eq!(top(&store), Some(4));
        last = now;
    }
    assert_eq!(last, 4);
}

#[test]
fn bottom_beyond_top_is_left_alone() {
    let mut store = store_with(2, 5, &[(6, article_payload(b"a6", b"h6"))]);
    let mut handler = Scripted::new(&[], &[]);
    assert!(run_cycle(&mut store, &mut handler).is_empty());
    assert_eq!(bottom(&store), Some(5));
    assert_eq!(top(&store), Some(2));
}

#[test]
fn drain_of_a_method_equals_the_cycle() {
    let slots = [(1, article_payload(b"a1", b"h1")), (2, article_payload(b"a2", b"h2"))];
    let mut one = store_with(2, 0, &slots);
    let mut two = store_with(2, 0, &slots);
    let mut first = Scripted::new(&[], &[]);
    let mut second = Scripted::new(&[], &[]);
    assert_eq!(
        drain(&mut one, &mut first, Method::ArticlePost),
        run_cycle(&mut two, &mut second)
    );
    assert_eq!(first.seen, second.seen);
    assert_eq!(bottom(&one), bottom(&two));
}

#[test]
fn article_index_as_handler_enters_id_and_hash() {
    let mut store = store_with(
        3,
        0,
        &[
            (1, article_payload(b"a1", b"h1")),
            (2, article_payload(b"a2", b"h2")),
            (3, article_payload(b"a1", b"h3")),
        ],
    );
    let mut index = ArticleIndex::new();
    assert_eq!(index.lookup(b"a1"), None);
    let report = run_cycle(&mut store, &mut index);
    assert_eq!(report.len(), 3);
    assert_eq!(index.lookup(b"a1"), Some(&b"h3".to_vec()));
    assert_eq!(index.lookup(b"a2"), Some(&b"h2".to_vec()));
    assert_eq!(index.lookup(b"a3"), None);
}
