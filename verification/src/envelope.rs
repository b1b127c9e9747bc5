//! The frame that every response has.
use vstd::prelude::*;

use crate::json::Json;
#[allow(unused_imports)]
use crate::json::{integer, items_view, object, JsonV};
use crate::text::{cat, decimal_of};
#[allow(unused_imports)]
use crate::text::decimal;

verus! {

/// How far a request was carried out.
#[derive(Clone, Copy, Debug, PartialEq, Eq, Structural)]
pub enum ResponseStatus {
    Complete,
    Partial,
    Degraded,
    NoOp,
    Committed,
}

/// A response.
#[derive(Debug)]
pub struct WorkspaceEnvelope<T> {
    pub request_id: String,
    pub session_id: Option<String>,
    pub corpus_revision: Option<String>,
    pub status: ResponseStatus,
    pub data: T,
    pub gaps: Vec<Json>,
    pub timings_ms: Option<Json>,
    pub query_count: Option<usize>,
}

impl<T> WorkspaceEnvelope<T> {
    /// A complete response to a request.
    pub fn complete(request_id: String, query_count: Option<usize>, data: T) -> (r: Self)
        ensures
            r.request_id == request_id,
            r.session_id is None,
            r.corpus_revision is None,
            r.status == ResponseStatus::Complete,
            r.data == data,
            r.gaps@.len() == 0,
            r.timings_ms is None,
            r.query_count == query_count,
    {
        WorkspaceEnvelope {
            request_id,
            session_id: None,
            corpus_revision: None,
            status: ResponseStatus::Complete,
            data,
            gaps: Vec::new(),
            timings_ms: None,
            query_count,
        }
    }
}

/// What a library function says of a response; the frame is put around it by the
/// service.
#[derive(Debug)]
pub struct Reply {
    pub session_id: Option<String>,
    pub corpus_revision: Option<String>,
    pub status: ResponseStatus,
    pub data: Json,
    pub gaps: Vec<Json>,
}

#[verifier::ext_equal]
pub struct ReplyV {
    pub session_id: Option<Seq<char>>,
    pub corpus_revision: Option<Seq<char>>,
    pub status: ResponseStatus,
    pub data: JsonV,
    pub gaps: Seq<JsonV>,
}

impl View for Reply {
    type V = ReplyV;

    open spec fn view(&self) -> ReplyV {
        ReplyV {
            session_id: crate::candidate::option_view(self.session_id),
            corpus_revision: crate::candidate::option_view(self.corpus_revision),
            status: self.status,
            data: self.data@,
            gaps: crate::json::items_view(self.gaps@),
        }
    }
}

/// That a response is a reply in its frame.
pub open spec fn frames(
    e: WorkspaceEnvelope<Json>,
    reply: ReplyV,
    request_id: Seq<char>,
    query_count: Option<usize>,
) -> bool {
    &&& e.request_id@ == request_id
    &&& crate::candidate::option_view(e.session_id) == reply.session_id
    &&& crate::candidate::option_view(e.corpus_revision) == reply.corpus_revision
    &&& e.status == reply.status
    &&& e.data@ == reply.data
    &&& crate::json::items_view(e.gaps@) == reply.gaps
    &&& e.timings_ms is None
    &&& e.query_count == query_count
}

impl Reply {
    /// The reply in the frame of a response.
    pub fn framed(self, request_id: String, query_count: Option<usize>) -> (r: WorkspaceEnvelope<
        Json,
    >)
        ensures
            frames(r, self@, request_id@, query_count),
    {
        WorkspaceEnvelope {
            request_id,
            session_id: self.session_id,
            corpus_revision: self.corpus_revision,
            status: self.status,
            data: self.data,
            gaps: self.gaps,
            timings_ms: None,
            query_count,
        }
    }
}

/// The word by which clients are told how far a request was carried out.
pub open spec fn status_word(status: ResponseStatus) -> Seq<char> {
    match status {
        ResponseStatus::Complete => "complete"@,
        ResponseStatus::Partial => "partial"@,
        ResponseStatus::Degraded => "degraded"@,
        ResponseStatus::NoOp => "no_op"@,
        ResponseStatus::Committed => "committed"@,
    }
}

impl ResponseStatus {
    /// The word by which clients are told how far a request was carried out.
    pub fn as_str(self) -> (r: &'static str)
        ensures
            r@ == status_word(self),
    {
        match self {
            ResponseStatus::Complete => "complete",
            ResponseStatus::Partial => "partial",
            ResponseStatus::Degraded => "degraded",
            ResponseStatus::NoOp => "no_op",
            ResponseStatus::Committed => "committed",
        }
    }
}

pub open spec fn with_some(j: JsonV, key: Seq<char>, value: Option<JsonV>) -> JsonV {
    match value {
        Some(v) => j.with(key, v),
        None => j,
    }
}

/// What a client is sent: the identity of the request never, and everything else
/// that is empty neither.
pub open spec fn envelope_json(e: WorkspaceEnvelope<Json>) -> JsonV {
    let session = with_some(
        object(),
        "session_id"@,
        match e.session_id {
            Some(t) => Some(JsonV::Text(t@)),
            None => None,
        },
    );
    let framed = with_some(
        session,
        "corpus_revision"@,
        match e.corpus_revision {
            Some(t) => Some(JsonV::Text(t@)),
            None => None,
        },
    ).with("status"@, JsonV::Text(status_word(e.status))).with("data"@, e.data@);
    let gaps = with_some(
        framed,
        "gaps"@,
        if e.gaps@.len() > 0 {
            Some(JsonV::Array(items_view(e.gaps@)))
        } else {
            None
        },
    );
    with_some(
        with_some(
            gaps,
            "timings_ms"@,
            match e.timings_ms {
                Some(t) => Some(t@),
                None => None,
            },
        ),
        "query_count"@,
        match e.query_count {
            Some(n) => Some(integer(n as int)),
            None => None,
        },
    )
}

pub(crate) fn put_some(j: Json, key: &str, value: Option<Json>) -> (r: Json)
    ensures
        r@ == with_some(
            j@,
            key@,
            match value {
                Some(v) => Some(v@),
                None => None,
            },
        ),
{
    match value {
        Some(v) => j.with(key, v),
        None => j,
    }
}

impl WorkspaceEnvelope<Json> {
    /// What a client is sent.
    pub fn into_json(self) -> (r: Json)
        ensures
            r@ == envelope_json(self),
    {
        let session = match self.session_id {
            Some(t) => Some(Json::Text(t)),
            None => None,
        };
        let revision = match self.corpus_revision {
            Some(t) => Some(Json::Text(t)),
            None => None,
        };
        let framed = put_some(
            put_some(Json::object(), "session_id", session),
            "corpus_revision",
            revision,
        ).with("status", Json::text(self.status.as_str())).with("data", self.data);
        let gaps = if self.gaps.len() > 0 {
            Some(Json::array(self.gaps))
        } else {
            None
        };
        let count = match self.query_count {
            Some(n) => Some(Json::count(n)),
            None => None,
        };
        put_some(
            put_some(put_some(framed, "gaps", gaps), "timings_ms", self.timings_ms),
            "query_count",
            count,
        )
    }
}

/// The name of a state of the workspace.
pub open spec fn revision_text(generation: int) -> Seq<char> {
    "generation:"@ + decimal(generation)
}

/// The name of a state of the workspace.
pub fn revision(generation: i64) -> (r: String)
    ensures
        r@ == revision_text(generation as int),
{
    cat("generation:", decimal_of(generation).as_str())
}

pub open spec fn says_no_op(receipt: JsonV) -> bool {
    receipt.get("no_op"@) == Some(JsonV::Bool(true))
}

/// Whether a receipt says that nothing was changed.
pub fn is_no_op(receipt: &Json) -> (r: bool)
    ensures
        r == says_no_op(receipt@),
{
    match receipt.get("no_op") {
        Some(Json::Bool(b)) => *b,
        _ => false,
    }
}

/// The reply to a write, by its receipt.
pub open spec fn receipt_reply(receipt: JsonV) -> ReplyV {
    ReplyV {
        session_id: None,
        corpus_revision: match receipt.get_integer("workspace_generation"@) {
            Some(g) => Some(revision_text(g)),
            None => None,
        },
        status: if says_no_op(receipt) {
            ResponseStatus::NoOp
        } else {
            ResponseStatus::Committed
        },
        data: receipt,
        gaps: Seq::empty(),
    }
}

/// The reply to a write, by its receipt.
pub fn reply_with_receipt(receipt: Json) -> (r: Reply)
    ensures
        r@ == receipt_reply(receipt@),
{
    let status = if is_no_op(&receipt) {
        ResponseStatus::NoOp
    } else {
        ResponseStatus::Committed
    };
    let corpus_revision = match receipt.get_integer("workspace_generation") {
        Some(g) => Some(revision(g)),
        None => None,
    };
    let gaps: Vec<Json> = Vec::new();
    let r = Reply { session_id: None, corpus_revision, status, data: receipt, gaps };
    assert(r@.gaps =~= Seq::empty());
    r
}

}
