//! The handler registry: the closed set of methods whose calls are queued, what a
//! payload of each decodes to, and the capability that applies a decoded item.

use vstd::prelude::*;
use crate::model::{parse_article, Article, ArticleView};
use crate::store::ByteMap;

verus! {

/// A method whose calls are queued. The set is closed: a new kind of work is a new
/// variant here.
#[derive(Clone, Copy, Debug, PartialEq, Eq, Structural)]
pub enum Method {
    ArticlePost,
}

/// A decoded work item, by method.
pub enum WorkItem {
    ArticlePost(Article),
}

/// The mathematical value of a [`WorkItem`].
pub enum WorkItemView {
    ArticlePost(ArticleView),
}

impl View for WorkItem {
    type V = WorkItemView;

    open spec fn view(&self) -> WorkItemView {
        match self {
            WorkItem::ArticlePost(article) => WorkItemView::ArticlePost(article@),
        }
    }
}

impl Method {
    /// The identifier of the method, as it appears in storage keys.
    pub open spec fn identifier(self) -> Seq<u8> {
        match self {
            Method::ArticlePost => seq![
                97u8, 114u8, 116u8, 105u8, 99u8, 108u8, 101u8, 95u8, 112u8, 111u8, 115u8, 116u8,
            ],
        }
    }

    /// The identifier of the method: `article_post` for [`Method::ArticlePost`].
    pub fn name(self) -> (name: Vec<u8>)
        ensures
            name@ == self.identifier(),
    {
        match self {
            Method::ArticlePost => {
                let name: Vec<u8> = vec![
                    97u8, 114u8, 116u8, 105u8, 99u8, 108u8, 101u8, 95u8, 112u8, 111u8, 115u8, 116u8,
                ];
                assert(name@ =~= self.identifier());
                name
            },
        }
    }

    /// The work item that `payload` encodes for this method, if it encodes one.
    pub open spec fn parse(self, payload: Seq<u8>) -> Option<WorkItemView> {
        match self {
            Method::ArticlePost => match parse_article(payload) {
                Some(article) => Some(WorkItemView::ArticlePost(article)),
                None => None,
            },
        }
    }

    /// Decodes a slot payload of this method.
    pub fn decode(self, payload: &[u8]) -> (item: Option<WorkItem>)
        ensures
            item is Some <==> self.parse(payload@) is Some,
            item matches Some(found) ==> self.parse(payload@) == Some(found@),
    {
        match self {
            Method::ArticlePost => match Article::decode(payload) {
                Some(article) => Some(WorkItem::ArticlePost(article)),
                None => None,
            },
        }
    }
}

/// Why a handler did not apply an item.
#[derive(Clone, Copy, Debug, PartialEq, Eq, Structural)]
pub enum HandlerError {
    /// The item may succeed later: it is tried again in the next cycle.
    Retryable,
    /// The item can never succeed: it is skipped.
    Permanent,
}

/// The failure in a handler's result, if it is one.
pub open spec fn failure_of(result: Result<(), HandlerError>) -> Option<HandlerError> {
    match result {
        Ok(_) => None,
        Err(failure) => Some(failure),
    }
}

/// The capability to apply decoded work items.
///
/// `applies` is the handler's own account of what `apply` may do. The dispatch loop
/// promises nothing of a handler beyond that account.
pub trait Handler: Sized {
    /// Whether applying `item` may take the handler from `pre` to `post`, failing with
    /// `failure` or, where that is `None`, succeeding. A handler that does not say
    /// otherwise allows everything.
    open spec fn applies(
        pre: Self,
        item: WorkItemView,
        failure: Option<HandlerError>,
        post: Self,
    ) -> bool {
        true
    }

    /// Applies one decoded item.
    fn apply(&mut self, item: &WorkItem) -> (result: Result<(), HandlerError>)
        ensures
            Self::applies(*old(self), item@, failure_of(result), *final(self)),
    ;
}

/// The secondary index: from an item identifier to the hash of its latest content.
pub struct ArticleIndex {
    entries: ByteMap,
}

impl View for ArticleIndex {
    type V = Map<Seq<u8>, Seq<u8>>;

    closed spec fn view(&self) -> Map<Seq<u8>, Seq<u8>> {
        self.entries@
    }
}

impl ArticleIndex {
    /// An index without entries.
    pub fn new() -> (index: ArticleIndex)
        ensures
            index@ == Map::<Seq<u8>, Seq<u8>>::empty(),
    {
        ArticleIndex { entries: ByteMap::new() }
    }

    /// Records `content_hash` for `item_id`. An earlier hash of the item is replaced.
    pub fn update_index(&mut self, item_id: &[u8], content_hash: &[u8])
        ensures
            final(self)@ == old(self)@.insert(item_id@, content_hash@),
    {
        self.entries.set(item_id, content_hash);
    }

    /// The hash recorded for `item_id`, if there is one.
    pub fn lookup(&self, item_id: &[u8]) -> (hash: Option<&Vec<u8>>)
        ensures
            hash is Some <==> self@.contains_key(item_id@),
            hash matches Some(found) ==> found@ == self@[item_id@],
    {
        self.entries.get(item_id)
    }
}

impl Handler for ArticleIndex {
    /// A posted article is indexed under its identifier with its hash; this never fails.
    open spec fn applies(
        pre: Self,
        item: WorkItemView,
        failure: Option<HandlerError>,
        post: Self,
    ) -> bool {
        match item {
            WorkItemView::ArticlePost(article) => {
                &&& failure is None
                &&& post@ == pre@.insert(article.id, article.hash)
            },
        }
    }

    fn apply(&mut self, item: &WorkItem) -> (result: Result<(), HandlerError>) {
        match item {
            WorkItem::ArticlePost(article) => {
                self.update_index(article.id.as_slice(), article.hash.as_slice());
                Ok(())
            },
        }
    }
}

/// The article index is idempotent: applying an item a second time leaves the index
/// as the first time left it.
pub proof fn lemma_article_index_idempotent(
    pre: ArticleIndex,
    item: WorkItemView,
    once: ArticleIndex,
    twice: ArticleIndex,
)
    requires
        ArticleIndex::applies(pre, item, None, once),
        ArticleIndex::applies(once, item, None, twice),
    ensures
        twice@ == once@,
{
    match item {
        WorkItemView::ArticlePost(article) => {
            assert(once@.insert(article.id, article.hash) =~= once@);
        },
    }
}

} // verus!
