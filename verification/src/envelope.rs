//! The correlation contract: any transmitted unit is classified as
//! request-bearing, response-bearing, or both, by two independent optional
//! identifiers. Both may be present at once — a peer may piggyback a new
//! request inside what is structurally a response.

use std::hash::Hash;

use vstd::prelude::*;

use crate::error::Error;

verus! {

/// Anything that can be classified by the correlation layer, keyed by a
/// caller-chosen identifier type.
pub trait Requestable {
    type Key: PartialEq + Eq + Hash + Send + Clone;

    /// The request identifier this unit carries, if any.
    spec fn spec_req_id(&self) -> Option<Self::Key>;

    /// The identifier of the request this unit responds to, if any.
    spec fn spec_to(&self) -> Option<Self::Key>;

    /// Returns the request's ID if it has one.
    fn req_id(&self) -> (r: Option<Self::Key>)
        ensures
            r == self.spec_req_id(),
    ;

    /// Returns the ID of the request responded to.
    fn to(&self) -> (r: Option<Self::Key>)
        ensures
            r == self.spec_to(),
    ;

    /// If the message has a request ID, it is a request. It is possible for
    /// a response to simultaneously be a request.
    fn is_request(&self) -> (r: bool)
        ensures
            r == (self.spec_req_id() is Some),
    {
        match self.req_id() {
            Some(_) => true,
            None => false,
        }
    }

    /// If the message has a response ID, it is a response. It is possible
    /// for a response to simultaneously be a request.
    fn is_response(&self) -> (r: bool)
        ensures
            r == (self.spec_to() is Some),
    {
        match self.to() {
            Some(_) => true,
            None => false,
        }
    }
}

/// How an envelope must be dispatched.
#[derive(Debug, PartialEq, Eq, Clone, Copy)]
pub enum Classification {
    /// Carries only a fresh request identifier: awaits a reply.
    Request,
    /// Carries only a responds-to identifier: answers an earlier request.
    Response,
    /// Carries both: answers an earlier request and demands its own reply,
    /// to be dispatched through both paths.
    Both,
}

/// A transmitted unit: an optional fresh request identifier, an optional
/// responds-to identifier, and the payload. Identifiers are connection-
/// scoped increasing integers.
#[derive(Debug, PartialEq, Eq)]
pub struct Envelope<P> {
    pub req_id: Option<u64>,
    pub to: Option<u64>,
    pub payload: P,
}

impl<P> Requestable for Envelope<P> {
    type Key = u64;

    open spec fn spec_req_id(&self) -> Option<u64> {
        self.req_id
    }

    open spec fn spec_to(&self) -> Option<u64> {
        self.to
    }

    fn req_id(&self) -> (r: Option<u64>)
        ensures
            r == self.spec_req_id(),
    {
        self.req_id
    }

    fn to(&self) -> (r: Option<u64>)
        ensures
            r == self.spec_to(),
    {
        self.to
    }
}

impl<P> Envelope<P> {
    /// Classify this envelope. An envelope with neither identifier is
    /// malformed for this protocol and is rejected, not silently dropped.
    pub fn classify(&self) -> (r: Result<Classification, Error>)
        ensures
            r matches Ok(c) ==> match c {
                Classification::Request => self.req_id is Some && self.to is None,
                Classification::Response => self.req_id is None && self.to is Some,
                Classification::Both => self.req_id is Some && self.to is Some,
            },
            r is Err <==> self.req_id is None && self.to is None,
            r matches Err(e) ==> e == Error::MissingIdentifiers,
    {
        match (&self.req_id, &self.to) {
            (Some(_), None) => Ok(Classification::Request),
            (None, Some(_)) => Ok(Classification::Response),
            (Some(_), Some(_)) => Ok(Classification::Both),
            (None, None) => Err(Error::MissingIdentifiers),
        }
    }
}

} // verus!
