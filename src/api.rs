//! The fetch operation as clients see it: request validation, the parameters of the two store
//! operations, the join of their outcomes, and the client-facing view of each comment.
//!
//! A fetch runs in three steps. [`FetchRequest::plan`] validates the request before any store
//! access and fixes the parameters; the caller then runs [`FetchPlan::list`] and
//! [`FetchPlan::count`] concurrently against the store; [`fetch`] joins the two outcomes and
//! assembles the response.

use vstd::prelude::*;

use crate::mode::DEFAULT_MASK;
use crate::models::{copy_text, is_listing, is_reply_count, Comment, OrderKey, Store};
use crate::render::{
    fill_template, filled, is_lower_hex, md5_hex, md5_hex_of, render_text, sha1_hex, sha1_hex_of,
};
use crate::timestamp::FloatDateTime;

verus! {

/// The longest URI, in characters, that a fetch accepts.
pub const MAX_URI_LEN: usize = 1024;

/// Settings that the response assembly reads.
pub struct GeneralConfig {
    /// The avatar URL, with `{}` where the avatar key goes.
    pub gravatar_url: String,
}

/// A request for the comments of one page.
pub struct FetchRequest {
    /// The URI of the thread to get comments from.
    pub uri: String,
    /// `None` for root comments, `Some(0)` for all, `Some(id)` for the replies to `id`.
    pub parent: Option<i32>,
    pub limit: Option<i64>,
    /// Accepted and not used: reserved for fetching nested replies.
    pub nested_limit: Option<usize>,
    /// Only comments created strictly after this instant; the epoch when absent.
    pub after: Option<FloatDateTime>,
    /// `Some(1)` asks for the stored text rather than rendered HTML.
    pub plain: Option<i32>,
}

/// Why a request was refused before any store access.
#[derive(Clone, Copy, Debug, PartialEq, Eq, Structural)]
pub enum ValidationError {
    /// The URI is longer than [`MAX_URI_LEN`] characters.
    UriTooLong,
}

/// A failure reported by the store: connection, query, or decoding of a stored value.
pub struct StoreError {
    pub message: String,
}

/// Why a fetch failed: bad input, or the store.
pub enum FetchError {
    Validation(ValidationError),
    Store(StoreError),
}

/// The parameters of the two store operations of one fetch.
pub struct FetchPlan {
    pub uri: String,
    pub after: FloatDateTime,
    pub parent: Option<i32>,
    pub limit: Option<i64>,
    pub plain: bool,
}

/// The client-facing view of a comment.
pub struct CommentResponse {
    pub id: i32,
    pub parent: Option<i32>,
    pub text: String,
    pub author: Option<String>,
    pub website: Option<String>,
    pub mode: i32,
    pub created: FloatDateTime,
    pub modified: Option<FloatDateTime>,
    pub likes: i32,
    pub dislikes: i32,
    /// Identity hash of the e-mail address, or of the remote address when there is none.
    pub hash: String,
    pub gravatar_image: String,
}

impl FetchRequest {
    /// Whether the request asks for the stored text rather than rendered HTML.
    pub fn is_plain(&self) -> (r: bool)
        ensures
            r == (self.plain == Some(1i32)),
    {
        self.plain.unwrap_or(0) == 1
    }

    /// Refuses a URI longer than [`MAX_URI_LEN`] characters.
    pub fn validate(&self) -> (r: Result<(), ValidationError>)
        ensures
            r is Err <==> self.uri@.len() > MAX_URI_LEN,
            r matches Err(e) ==> e == ValidationError::UriTooLong,
    {
        if self.uri.as_str().unicode_len() > MAX_URI_LEN {
            Err(ValidationError::UriTooLong)
        } else {
            Ok(())
        }
    }

    /// Validates the request and fixes the parameters of its two store operations.
    pub fn plan(&self) -> (r: Result<FetchPlan, FetchError>)
        ensures
            r is Err <==> self.uri@.len() > MAX_URI_LEN,
            r matches Err(e) ==> e == FetchError::Validation(ValidationError::UriTooLong),
            r matches Ok(p) ==> {
                &&& p.uri@ == self.uri@
                &&& p.after == self.after.unwrap_or(FloatDateTime::unix_epoch())
                &&& p.parent == self.parent
                &&& p.limit == self.limit
                &&& p.plain == (self.plain == Some(1i32))
            },
    {
        match self.validate() {
            Err(e) => Err(FetchError::Validation(e)),
            Ok(()) => Ok(
                FetchPlan {
                    uri: self.uri.clone(),
                    after: match self.after {
                        Some(a) => a,
                        None => FloatDateTime::epoch(),
                    },
                    parent: self.parent,
                    limit: self.limit,
                    plain: self.is_plain(),
                },
            ),
        }
    }
}

impl FetchPlan {
    /// The comment listing of the fetch: the default mask, ordered by ascending id.
    pub fn list(&self, store: &Store) -> (r: Vec<Comment>)
        ensures
            is_listing(*store, self.uri@, DEFAULT_MASK, self.after@, self.parent, OrderKey::Id, true, self.limit, r@),
    {
        Comment::fetch(store, self.uri.clone(), None, self.after, self.parent, None, true, self.limit)
    }

    /// The reply counts of the fetch, under the same filter as [`FetchPlan::list`].
    pub fn count(&self, store: &Store) -> (r: Vec<(Option<i32>, i64)>)
        requires
            store.comments@.len() <= i64::MAX,
        ensures
            is_reply_count(*store, self.uri@, DEFAULT_MASK, self.after@, r@),
    {
        Comment::reply_count(store, self.uri.clone(), None, self.after)
    }
}

/// What identifies the poster: the e-mail address, or the remote address when there is none.
pub open spec fn identity_of(c: Comment) -> Seq<char> {
    match c.email {
        Some(e) => e@,
        None => c.remote_addr@,
    }
}

/// `r` is the view of `c`, with the text rendered unless `plain`, and the avatar URL made from
/// `template`.
pub open spec fn is_response(c: Comment, plain: bool, template: Seq<char>, r: CommentResponse) -> bool {
    &&& r.id == c.id
    &&& r.parent == c.parent
    &&& r.text@ == if plain {
        c.text@
    } else {
        crate::render::markdown_html_of(c.text@)
    }
    &&& r.author == c.author
    &&& r.website == c.website
    &&& r.mode == c.mode
    &&& r.created == c.created
    &&& r.modified == c.modified
    &&& r.likes == c.likes
    &&& r.dislikes == c.dislikes
    &&& r.hash@ == sha1_hex_of(identity_of(c))
    &&& r.gravatar_image@ == filled(template, md5_hex_of(identity_of(c)))
}

/// `r` is the view of each comment of `list`, in the same order.
pub open spec fn is_response_list(list: Seq<Comment>, plain: bool, template: Seq<char>, r: Seq<CommentResponse>) -> bool {
    &&& r.len() == list.len()
    &&& forall|k: int| 0 <= k < r.len() ==> #[trigger] is_response(list[k], plain, template, r[k])
}

impl CommentResponse {
    /// The client-facing view of a stored comment.
    pub fn from_comment(c: &Comment, plain: bool, config: &GeneralConfig) -> (r: CommentResponse)
        ensures
            is_response(*c, plain, config.gravatar_url@, r),
            r.hash@.len() == 40,
            is_lower_hex(r.hash@),
    {
        let identity: &str = match &c.email {
            Some(e) => e.as_str(),
            None => c.remote_addr.as_str(),
        };
        let key = md5_hex(identity);
        CommentResponse {
            id: c.id,
            parent: c.parent,
            text: render_text(c.text.as_str(), plain),
            author: copy_text(&c.author),
            website: copy_text(&c.website),
            mode: c.mode,
            created: c.created,
            modified: c.modified,
            likes: c.likes,
            dislikes: c.dislikes,
            hash: sha1_hex(identity),
            gravatar_image: fill_template(config.gravatar_url.as_str(), key.as_str()),
        }
    }
}

/// The views of the fetched comments, in the order they were fetched.
pub fn process_fetched_list(list: &Vec<Comment>, plain: bool, config: &GeneralConfig) -> (r: Vec<CommentResponse>)
    ensures
        is_response_list(list@, plain, config.gravatar_url@, r@),
{
    let mut out: Vec<CommentResponse> = Vec::new();
    let mut k: usize = 0;
    while k < list.len()
        invariant
            k <= list@.len(),
            is_response_list(list@.take(k as int), plain, config.gravatar_url@, out@),
        decreases list@.len() - k,
    {
        out.push(CommentResponse::from_comment(&list[k], plain, config));
        proof {
            assert(list@.take(k + 1) =~= list@.take(k as int).push(list@[k as int]));
        }
        k += 1;
    }
    proof {
        assert(list@.take(list@.len() as int) =~= list@);
    }
    out
}

/// Joins the outcomes of the two store operations of a fetch and assembles the response.
///
/// The fetch fails as a whole when either operation failed, with the error of the reply
/// counts when both did. The reply counts are required to succeed but are not part of the
/// response: the views carry no reply totals.
pub fn fetch(
    plan: &FetchPlan,
    config: &GeneralConfig,
    listed: Result<Vec<Comment>, StoreError>,
    counted: Result<Vec<(Option<i32>, i64)>, StoreError>,
) -> (r: Result<Vec<CommentResponse>, FetchError>)
    ensures
        r is Ok <==> (listed is Ok && counted is Ok),
        counted matches Err(e) ==> r == Err::<Vec<CommentResponse>, FetchError>(FetchError::Store(e)),
        counted is Ok ==> (listed matches Err(e) ==> r == Err::<Vec<CommentResponse>, FetchError>(
            FetchError::Store(e),
        )),
        listed matches Ok(list) ==> (r matches Ok(v) ==> is_response_list(
            list@,
            plan.plain,
            config.gravatar_url@,
            v@,
        )),
{
    match counted {
        Err(e) => Err(FetchError::Store(e)),
        Ok(_counts) => match listed {
            Err(e) => Err(FetchError::Store(e)),
            Ok(list) => Ok(process_fetched_list(&list, plan.plain, config)),
        },
    }
}

} // verus!
