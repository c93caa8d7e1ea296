//! What a filter tells its pipeline.

use vstd::prelude::*;

verus! {

/// A response that a filter answers a request with.
pub struct Rejection {
    /// The HTTP status.
    pub status: u16,
    /// The response headers.
    pub headers: Vec<(String, String)>,
    /// The response body.
    pub body: Vec<u8>,
}

/// The model of a [`Rejection`].
#[verifier::ext_equal]
pub struct RejectionView {
    /// The HTTP status.
    pub status: u16,
    /// The response headers.
    pub headers: Seq<(Seq<char>, Seq<char>)>,
    /// The response body.
    pub body: Seq<u8>,
}

/// The texts of header pairs.
pub open spec fn pairs_view(pairs: Seq<(String, String)>) -> Seq<(Seq<char>, Seq<char>)> {
    Seq::new(pairs.len(), |i: int| (pairs[i].0@, pairs[i].1@))
}

impl View for Rejection {
    type V = RejectionView;

    open spec fn view(&self) -> RejectionView {
        RejectionView { status: self.status, headers: pairs_view(self.headers@), body: self.body@ }
    }
}

/// What the pipeline does next.
pub enum FilterAction {
    /// Go on with the next filter.
    Continue,
    /// Go on, and release the body that was held.
    Release,
    /// Go on, and hand no more body chunks to this filter.
    BodyDone,
    /// Answer the request with this response.
    Reject(Rejection),
}

/// The model of a [`FilterAction`].
pub enum ActionView {
    /// Go on with the next filter.
    Continue,
    /// Go on, and release the body that was held.
    Release,
    /// Go on, and hand no more body chunks to this filter.
    BodyDone,
    /// Answer the request with this response.
    Reject(RejectionView),
}

impl View for FilterAction {
    type V = ActionView;

    open spec fn view(&self) -> ActionView {
        match *self {
            FilterAction::Continue => ActionView::Continue,
            FilterAction::Release => ActionView::Release,
            FilterAction::BodyDone => ActionView::BodyDone,
            FilterAction::Reject(rejection) => ActionView::Reject(rejection@),
        }
    }
}

/// How a filter uses a body.
#[derive(Clone, Copy, Debug, PartialEq, Eq, Structural)]
pub enum BodyAccess {
    /// Not at all.
    Untouched,
    /// It reads the body.
    ReadOnly,
    /// It reads and rewrites the body.
    ReadWrite,
}

/// How a body reaches a filter.
#[derive(Clone, Copy, Debug, PartialEq, Eq, Structural)]
pub enum BodyMode {
    /// Part by part.
    Stream,
    /// Part by part, and held back up to this many bytes until it is released.
    StreamBuffer {
        /// The most bytes that are held.
        max_bytes: Option<usize>,
    },
}

/// Largest JSON body that is handled (64 MiB).
pub const MAX_JSON_BODY_BYTES: usize = 67108864;

/// A JSON response.
pub open spec fn json_rejection(status: u16, body: Seq<u8>) -> RejectionView {
    RejectionView { status, headers: seq![("content-type"@, "application/json"@)], body }
}

/// A JSON response.
pub fn reject_json(status: u16, body: Vec<u8>) -> (rejection: Rejection)
    ensures
        rejection@ == json_rejection(status, body@),
{
    let mut headers: Vec<(String, String)> = Vec::new();
    headers.push(("content-type".to_owned(), "application/json".to_owned()));
    let rejection = Rejection { status, headers, body };
    assert(rejection@ =~= json_rejection(status, body@));
    rejection
}

/// A JSON response has the status and the body that it was given, and says what it is.
pub proof fn lemma_json_answer(status: u16, body: Seq<u8>)
    ensures
        json_rejection(status, body).status == status,
        json_rejection(status, body).body == body,
        json_rejection(status, body).headers.len() == 1,
        json_rejection(status, body).headers[0] == ("content-type"@, "application/json"@),
{
}

} // verus!
