use offchain_queue::model::Article;
use offchain_queue::registry::{Method, WorkItem};
use offchain_queue::scale::{decode_marker, encode_marker};
use parity_scale_codec::Encode;

fn sample_payload() -> Vec<u8> {
    let mut out: Vec<u8> = Vec::new();
    out.extend(b"a1".to_vec().encode());
    out.extend(b"A title".to_vec().encode());
    out.extend(b"ipfs://cover".to_vec().encode());
    out.extend(b"raw".to_vec().encode());
    out.extend(b"content".to_vec().encode());
    out.extend(b"s9".to_vec().encode());
    out.extend(b"u3".to_vec().encode());
    out.extend(b"rust,verus".to_vec().encode());
    out.extend(Vec::<u8>::new().encode());
    out.extend(1u16.encode());
    out.extend(2u16.encode());
    out.extend(1_700_000_000u64.encode());
    out.extend(1_700_000_500u64.encode());
    out.extend(b"hash1".to_vec().encode());
    out
}

#[test]
fn marker_is_eight_bytes_least_significant_first() {
    assert_eq!(encode_marker(0), vec![0u8; 8]);
    assert_eq!(encode_marker(1), vec![1u8, 0, 0, 0, 0, 0, 0, 0]);
    assert_eq!(encode_marker(0x0102), vec![2u8, 1, 0, 0, 0, 0, 0, 0]);
    assert_eq!(encode_marker(u64::MAX), vec![0xffu8; 8]);
    assert_eq!(
        encode_marker(0x0807_0605_0403_0201),
        vec![1u8, 2, 3, 4, 5, 6, 7, 8]
    );
}

#[test]
fn marker_round_trip() {
    for n in [0u64, 1, 5, 255, 256, 65536, 1 << 40, u64::MAX - 1, u64::MAX] {
        assert_eq!(decode_marker(&encode_marker(n)), Some(n));
    }
}

#[test]
fn marker_shorter_than_eight_bytes_is_unreadable() {
    assert_eq!(decode_marker(&[]), None);
    assert_eq!(decode_marker(b"1"), None);
    assert_eq!(decode_marker(&[1u8, 0, 0, 0, 0, 0, 0]), None);
}

#[test]
fn marker_ignores_bytes_behind_the_eighth() {
    assert_eq!(decode_marker(&[7u8, 0, 0, 0, 0, 0, 0, 0, 9, 9]), Some(7));
    assert_eq!(decode_marker(&[0u8, 1, 0, 0, 0, 0, 0, 0, 0xff]), Some(256));
}

#[test]
fn article_decodes_field_by_field() {
    let article = Article::decode(&sample_payload()).expect("a well-formed article");
    assert_eq!(article.id, b"a1".to_vec());
    assert_eq!(article.title, b"A title".to_vec());
    assert_eq!(article.cover_uri, b"ipfs://cover".to_vec());
    assert_eq!(article.raw_content, b"raw".to_vec());
    assert_eq!(article.content, b"content".to_vec());
    assert_eq!(article.section_id, b"s9".to_vec());
    assert_eq!(article.author_id, b"u3".to_vec());
    assert_eq!(article.tags, b"rust,verus".to_vec());
    assert_eq!(article.ext_link, Vec::<u8>::new());
    assert_eq!(article.space_type, 1);
    assert_eq!(article.status, 2);
    assert_eq!(article.created_time, 1_700_000_000);
    assert_eq!(article.updated_time, 1_700_000_500);
    assert_eq!(article.hash, b"hash1".to_vec());
}

#[test]
fn article_of_written_out_bytes() {
    let mut bytes: Vec<u8> = Vec::new();
    bytes.extend([8u8, b'i', b'd']);
    for _ in 0..8 {
        bytes.push(0);
    }
    bytes.extend([3u8, 0]);
    bytes.extend([0u8, 1]);
    bytes.extend([1u8, 0, 0, 0, 0, 0, 0, 0]);
    bytes.extend([0u8, 0, 0, 0, 0, 0, 0, 0x80]);
    bytes.extend([4u8, 0xaa]);
    let article = Article::decode(&bytes).expect("a well-formed article");
    assert_eq!(article.id, b"id".to_vec());
    assert!(article.title.is_empty());
    assert!(article.ext_link.is_empty());
    assert_eq!(article.space_type, 3);
    assert_eq!(article.status, 256);
    assert_eq!(article.created_time, 1);
    assert_eq!(article.updated_time, 1u64 << 63);
    assert_eq!(article.hash, vec![0xaau8]);
}

#[test]
fn article_ignores_trailing_bytes() {
    let mut payload = sample_payload();
    payload.extend([1u8, 2, 3]);
    let article = Article::decode(&payload).expect("a well-formed article");
    assert_eq!(article.hash, b"hash1".to_vec());
}

#[test]
fn article_cut_short_does_not_decode() {
    let payload = sample_payload();
    for keep in 0..payload.len() {
        assert!(Article::decode(&payload[..keep]).is_none());
    }
    assert!(Article::decode(&payload).is_some());
}

#[test]
fn article_with_long_fields() {
    let long = vec![7u8; 64];
    let longer = vec![9u8; 20_000];
    let mut payload: Vec<u8> = Vec::new();
    payload.extend(long.encode());
    payload.extend(longer.encode());
    for _ in 0..7 {
        payload.extend(Vec::<u8>::new().encode());
    }
    payload.extend(0u16.encode());
    payload.extend(0u16.encode());
    payload.extend(0u64.encode());
    payload.extend(0u64.encode());
    payload.extend(vec![1u8; 63].encode());
    let article = Article::decode(&payload).expect("a well-formed article");
    assert_eq!(article.id, long);
    assert_eq!(article.title, longer);
    assert_eq!(article.hash, vec![1u8; 63]);
}

#[test]
fn length_written_wider_than_needed_is_rejected() {
    let mut tail: Vec<u8> = Vec::new();
    for _ in 0..8 {
        tail.push(0);
    }
    tail.extend([0u8; 2 + 2 + 8 + 8]);
    tail.push(0);
    let mut narrow = vec![4u8, b'x'];
    narrow.extend(tail.clone());
    assert_eq!(Article::decode(&narrow).expect("narrow length").id, b"x".to_vec());
    let mut two_bytes = vec![0x05u8, 0x00, b'x'];
    two_bytes.extend(tail.clone());
    assert!(Article::decode(&two_bytes).is_none());
    let mut four_bytes = vec![0x06u8, 0x00, 0x00, 0x00, b'x'];
    four_bytes.extend(tail.clone());
    assert!(Article::decode(&four_bytes).is_none());
    let mut five_bytes = vec![0x03u8, 0x01, 0x00, 0x00, 0x00, b'x'];
    five_bytes.extend(tail.clone());
    assert!(Article::decode(&five_bytes).is_none());
    let mut big_mode = vec![0x07u8, 0x01, 0x00, 0x00, 0x00, 0x00, b'x'];
    big_mode.extend(tail);
    assert!(Article::decode(&big_mode).is_none());
}

#[test]
fn length_beyond_the_input_is_rejected() {
    assert!(Article::decode(&[0xfcu8, 1, 2, 3]).is_none());
    assert!(Article::decode(&[0x01u8]).is_none());
    assert!(Article::decode(&[0x02u8, 0, 1]).is_none());
}

#[test]
fn registry_names_and_decodes_article_post() {
    assert_eq!(Method::ArticlePost.name(), b"article_post".to_vec());
    match Method::ArticlePost.decode(&sample_payload()) {
        Some(WorkItem::ArticlePost(article)) => assert_eq!(article.id, b"a1".to_vec()),
        None => panic!("a well-formed payload"),
    }
    assert!(Method::ArticlePost.decode(b"not an article").is_none());
}
