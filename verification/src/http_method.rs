//! The closed set of HTTP methods that key the route table.

use vstd::prelude::*;

verus! {

/// An HTTP method. `Use` marks a registration that is meant for every method.
#[derive(Clone, Copy, Debug, PartialEq, Eq, Structural, Hash)]
pub enum HttpMethod {
    Get,
    Post,
    Put,
    Delete,
    Head,
    Options,
    Connect,
    Patch,
    Trace,
    Use,
}

impl HttpMethod {
    /// Whether the method can be that of a request: every method but `Use`.
    pub open spec fn is_concrete(self) -> bool {
        self != HttpMethod::Use
    }

    /// The number that stands for the method as a key of the route table.
    pub open spec fn slot(self) -> u8 {
        match self {
            HttpMethod::Get => 0,
            HttpMethod::Post => 1,
            HttpMethod::Put => 2,
            HttpMethod::Delete => 3,
            HttpMethod::Head => 4,
            HttpMethod::Options => 5,
            HttpMethod::Connect => 6,
            HttpMethod::Patch => 7,
            HttpMethod::Trace => 8,
            HttpMethod::Use => 9,
        }
    }

    /// Computes the method's key.
    pub fn code(&self) -> (r: u8)
        ensures
            r == self.slot(),
    {
        match self {
            HttpMethod::Get => 0,
            HttpMethod::Post => 1,
            HttpMethod::Put => 2,
            HttpMethod::Delete => 3,
            HttpMethod::Head => 4,
            HttpMethod::Options => 5,
            HttpMethod::Connect => 6,
            HttpMethod::Patch => 7,
            HttpMethod::Trace => 8,
            HttpMethod::Use => 9,
        }
    }
}

} // verus!
