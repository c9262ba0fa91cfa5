//! Fallible RPC calls: a transport error and an application error flattened
//! into one.
use vstd::prelude::*;

verus! {

/// An error from a fallible RPC call.
///
/// A fallible RPC call is one whose output is a `Result<_, _>`.
#[derive(Debug)]
pub enum ErrorFrom<C, S> {
    /// A transport error.
    Transport(C),
    /// An error from the function's output.
    Application(S),
}

/// Flatten the reply to a fallible call: a transport error or an
/// application error becomes an [`ErrorFrom`], and a success is kept.
pub fn flatten<Success, Error, C>(reply: Result<Result<Success, Error>, C>) -> (r: Result<
    Success,
    ErrorFrom<C, Error>,
>)
    ensures
        r == flatten_spec(reply),
{
    match reply {
        Ok(Ok(ok)) => Ok(ok),
        Ok(Err(e)) => Err(ErrorFrom::Application(e)),
        Err(e) => Err(ErrorFrom::Transport(e)),
    }
}

/// Flattening keeps everything: two replies that flatten alike are the same
/// reply.
pub proof fn lemma_flatten_injective<Success, Error, C>(
    a: Result<Result<Success, Error>, C>,
    b: Result<Result<Success, Error>, C>,
)
    requires
        flatten_spec(a) == flatten_spec(b),
    ensures
        a == b,
{
}

/// What [`flatten`] gives for a reply.
pub open spec fn flatten_spec<Success, Error, C>(reply: Result<Result<Success, Error>, C>) -> Result<
    Success,
    ErrorFrom<C, Error>,
> {
    match reply {
        Ok(Ok(ok)) => Ok(ok),
        Ok(Err(e)) => Err(ErrorFrom::Application(e)),
        Err(e) => Err(ErrorFrom::Transport(e)),
    }
}

} // verus!
