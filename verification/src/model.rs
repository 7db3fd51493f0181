//! The article record that a queued payload carries, and its wire format.

use vstd::prelude::*;
use crate::scale::{
    fixed_u16,
    fixed_u64,
    length_prefixed,
    scale_decode_bytes,
    scale_decode_u16,
    scale_decode_u64,
};

verus! {

/// An article as it is posted.
pub struct Article {
    pub id: Vec<u8>,
    pub title: Vec<u8>,
    /// The URI of the cover picture.
    pub cover_uri: Vec<u8>,
    pub raw_content: Vec<u8>,
    pub content: Vec<u8>,
    pub section_id: Vec<u8>,
    pub author_id: Vec<u8>,
    pub tags: Vec<u8>,
    pub ext_link: Vec<u8>,
    /// 0 for a forum section article, 1 for a user blog article.
    pub space_type: u16,
    /// 0 normal, 1 frozen, 2 deleted.
    pub status: u16,
    pub created_time: u64,
    pub updated_time: u64,
    /// The hash of the record, renewed on every update.
    pub hash: Vec<u8>,
}

/// The mathematical value of an [`Article`].
pub struct ArticleView {
    pub id: Seq<u8>,
    pub title: Seq<u8>,
    pub cover_uri: Seq<u8>,
    pub raw_content: Seq<u8>,
    pub content: Seq<u8>,
    pub section_id: Seq<u8>,
    pub author_id: Seq<u8>,
    pub tags: Seq<u8>,
    pub ext_link: Seq<u8>,
    pub space_type: u16,
    pub status: u16,
    pub created_time: u64,
    pub updated_time: u64,
    pub hash: Seq<u8>,
}

impl View for Article {
    type V = ArticleView;

    open spec fn view(&self) -> ArticleView {
        ArticleView {
            id: self.id@,
            title: self.title@,
            cover_uri: self.cover_uri@,
            raw_content: self.raw_content@,
            content: self.content@,
            section_id: self.section_id@,
            author_id: self.author_id@,
            tags: self.tags@,
            ext_link: self.ext_link@,
            space_type: self.space_type,
            status: self.status,
            created_time: self.created_time,
            updated_time: self.updated_time,
            hash: self.hash@,
        }
    }
}

/// The byte string at the reading position `at`; empty where none can be read.
pub open spec fn bytes_at(at: Option<Seq<u8>>) -> Seq<u8> {
    match at {
        Some(input) => match length_prefixed(input) {
            Some((value, _)) => value,
            None => Seq::empty(),
        },
        None => Seq::empty(),
    }
}

/// The reading position behind the byte string at `at`; `None` where none can be read.
pub open spec fn past_bytes(at: Option<Seq<u8>>) -> Option<Seq<u8>> {
    match at {
        Some(input) => match length_prefixed(input) {
            Some((_, rest)) => Some(rest),
            None => None,
        },
        None => None,
    }
}

/// The `u16` at the reading position `at`; zero where none can be read.
pub open spec fn u16_at(at: Option<Seq<u8>>) -> u16 {
    match at {
        Some(input) => match fixed_u16(input) {
            Some((value, _)) => value,
            None => 0,
        },
        None => 0,
    }
}

/// The reading position behind the `u16` at `at`; `None` where none can be read.
pub open spec fn past_u16(at: Option<Seq<u8>>) -> Option<Seq<u8>> {
    match at {
        Some(input) => match fixed_u16(input) {
            Some((_, rest)) => Some(rest),
            None => None,
        },
        None => None,
    }
}

/// The `u64` at the reading position `at`; zero where none can be read.
pub open spec fn u64_at(at: Option<Seq<u8>>) -> u64 {
    match at {
        Some(input) => match fixed_u64(input) {
            Some((value, _)) => value,
            None => 0,
        },
        None => 0,
    }
}

/// The reading position behind the `u64` at `at`; `None` where none can be read.
pub open spec fn past_u64(at: Option<Seq<u8>>) -> Option<Seq<u8>> {
    match at {
        Some(input) => match fixed_u64(input) {
            Some((_, rest)) => Some(rest),
            None => None,
        },
        None => None,
    }
}

/// The article that `payload` encodes: the fields in declaration order, each byte
/// string with its length in front, each integer at its fixed width. Bytes behind the
/// last field are ignored. `None` where a field cannot be read.
#[verifier::opaque]
pub open spec fn parse_article(payload: Seq<u8>) -> Option<ArticleView> {
    let at_id = Some(payload);
    let at_title = past_bytes(at_id);
    let at_cover_uri = past_bytes(at_title);
    let at_raw_content = past_bytes(at_cover_uri);
    let at_content = past_bytes(at_raw_content);
    let at_section_id = past_bytes(at_content);
    let at_author_id = past_bytes(at_section_id);
    let at_tags = past_bytes(at_author_id);
    let at_ext_link = past_bytes(at_tags);
    let at_space_type = past_bytes(at_ext_link);
    let at_status = past_u16(at_space_type);
    let at_created_time = past_u16(at_status);
    let at_updated_time = past_u64(at_created_time);
    let at_hash = past_u64(at_updated_time);
    if past_bytes(at_hash) is Some {
        Some(
            ArticleView {
                id: bytes_at(at_id),
                title: bytes_at(at_title),
                cover_uri: bytes_at(at_cover_uri),
                raw_content: bytes_at(at_raw_content),
                content: bytes_at(at_content),
                section_id: bytes_at(at_section_id),
                author_id: bytes_at(at_author_id),
                tags: bytes_at(at_tags),
                ext_link: bytes_at(at_ext_link),
                space_type: u16_at(at_space_type),
                status: u16_at(at_status),
                created_time: u64_at(at_created_time),
                updated_time: u64_at(at_updated_time),
                hash: bytes_at(at_hash),
            },
        )
    } else {
        None
    }
}

impl Article {
    /// Decodes an article from a slot payload.
    pub fn decode(payload: &[u8]) -> (article: Option<Article>)
        ensures
            article is Some <==> parse_article(payload@) is Some,
            article matches Some(a) ==> parse_article(payload@) == Some(a@),
    {
        reveal(parse_article);
        let (id, rest) = scale_decode_bytes(payload)?;
        let (title, rest) = scale_decode_bytes(rest)?;
        let (cover_uri, rest) = scale_decode_bytes(rest)?;
        let (raw_content, rest) = scale_decode_bytes(rest)?;
        let (content, rest) = scale_decode_bytes(rest)?;
        let (section_id, rest) = scale_decode_bytes(rest)?;
        let (author_id, rest) = scale_decode_bytes(rest)?;
        let (tags, rest) = scale_decode_bytes(rest)?;
        let (ext_link, rest) = scale_decode_bytes(rest)?;
        let (space_type, rest) = scale_decode_u16(rest)?;
        let (status, rest) = scale_decode_u16(rest)?;
        let (created_time, rest) = scale_decode_u64(rest)?;
        let (updated_time, rest) = scale_decode_u64(rest)?;
        let (hash, _) = scale_decode_bytes(rest)?;
        Some(
            Article {
                id,
                title,
                cover_uri,
                raw_content,
                content,
                section_id,
                author_id,
                tags,
                ext_link,
                space_type,
                status,
                created_time,
                updated_time,
                hash,
            },
        )
    }
}

} // verus!
