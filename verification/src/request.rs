//! A request: its parameters and its body.

use crate::params::Params;
use vstd::prelude::*;

verus! {

/// A request to the application: the parameters, and the source that the
/// body is read from.
pub struct Request<I> {
    pub(crate) params: Params,
    pub(crate) stdin: I,
}

impl<I> Request<I> {
    /// The parameters of the request.
    pub closed spec fn spec_params(&self) -> Params {
        self.params
    }

    /// The source of the body.
    pub closed spec fn spec_stdin(&self) -> I {
        self.stdin
    }

    /// Makes a request from its parameters and the source of its body.
    pub fn new(params: Params, stdin: I) -> (request: Self)
        ensures
            request.spec_params() == params,
            request.spec_stdin() == stdin,
    {
        Self { params, stdin }
    }

    /// Takes the request apart into its parameters and the source of its
    /// body.
    pub fn into_parts(self) -> (parts: (Params, I))
        ensures
            parts.0 == self.spec_params(),
            parts.1 == self.spec_stdin(),
    {
        (self.params, self.stdin)
    }

    /// The parameters of the request.
    pub fn params(&self) -> (params: &Params)
        ensures
            *params == self.spec_params(),
    {
        &self.params
    }

    /// The parameters of the request, to be changed in place.
    pub fn params_mut(&mut self) -> (params: &mut Params)
        ensures
            *params == old(self).spec_params(),
            final(self).spec_params() == *final(params),
            final(self).spec_stdin() == old(self).spec_stdin(),
    {
        &mut self.params
    }

    /// The source of the body.
    pub fn stdin(&self) -> (stdin: &I)
        ensures
            *stdin == self.spec_stdin(),
    {
        &self.stdin
    }

    /// The source of the body, to be read from.
    pub fn stdin_mut(&mut self) -> (stdin: &mut I)
        ensures
            *stdin == old(self).spec_stdin(),
            final(self).spec_stdin() == *final(stdin),
            final(self).spec_params() == old(self).spec_params(),
    {
        &mut self.stdin
    }
}

} // verus!
