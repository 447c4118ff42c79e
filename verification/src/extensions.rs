//! The per-request side channel.  The parser records here what
//! later pipeline stages need without widening the request's public
//! shape; the one value the pipeline passes is the declared content
//! length, so the store holds exactly that slot.

use vstd::prelude::*;

verus! {

/// A per-request store carrying the declared content length from
/// the parser to the body reader.
pub struct Extensions {
    content_length: Option<usize>,
}

impl View for Extensions {
    type V = Option<usize>;

    closed spec fn view(&self) -> Option<usize> {
        self.content_length
    }
}

impl Extensions {
    pub fn new() -> (r: Extensions)
        ensures
            r@ is None,
    {
        Extensions { content_length: None }
    }

    /// Stores or replaces the held value, handing back the previous
    /// one.
    pub fn insert(&mut self, value: usize) -> (r: Option<usize>)
        ensures
            final(self)@ == Some(value),
            r == old(self)@,
    {
        let previous = self.content_length;
        self.content_length = Some(value);
        previous
    }

    pub fn get(&self) -> (r: Option<usize>)
        ensures
            r == self@,
    {
        self.content_length
    }

    pub fn contains(&self) -> (r: bool)
        ensures
            r == (self@ is Some),
    {
        match self.content_length {
            Some(_) => true,
            None => false,
        }
    }
}

} // verus!
