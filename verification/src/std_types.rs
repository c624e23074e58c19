//! The types and functions of the standard library that the node stream
//! passes through and that come without a specification.

use std::io::Error as IoError;
use std::sync::Arc;
use std::task::Context;
use std::task::Poll;
use vstd::prelude::*;

verus! {

/// `std::task::Context`: the wake context of a poll. It is handed on to the
/// multiplexer and never looked into.
#[verifier::external_type_specification]
#[verifier::external_body]
pub struct ExContext<'a>(Context<'a>);

/// `std::task::Poll`: either `Ready` with a value or `Pending`. The variants
/// are the ones the standard library declares.
#[verifier::external_type_specification]
#[verifier::reject_recursive_types(T)]
pub struct ExPoll<T>(Poll<T>);

/// `std::io::Error`: the failure that a poll reports. It is carried, never
/// looked into.
#[verifier::external_type_specification]
#[verifier::external_body]
pub struct ExIoError(IoError);

/// `Arc::clone` makes one more pointer to the same allocation: the clone
/// points to the value that `a` points to.
#[verifier::external_body]
pub(crate) fn share<T>(a: &Arc<T>) -> (r: Arc<T>)
    ensures
        *r == **a,
{
    Arc::clone(a)
}

/// Whether `io` can be what `Into::into` returns for `e`.
pub open spec fn converted<E: Into<IoError>>(e: E, io: IoError) -> bool {
    call_ensures(<E as Into<IoError>>::into, (e,), io)
}

} // verus!
