//! A strongly-typed client core for a JSON remote-debugging protocol whose
//! surface is described by a machine-readable schema document.
//!
//! The crate has two halves. At build time, [`load`] validates a parsed
//! document and builds the [`schema`] model, which resolves each type
//! declaration, and [`emit`] turns the model into
//! the source text of typed bindings: named types, request and return
//! wrappers, one API contract per domain, and one closed event enumeration.
//! At run time, [`json`] models and serializes wire values, and [`client`]
//! owns the protocol exchange: it frames requests under a monotonic id,
//! classifies every received message as a response or an event, buffers
//! both, and correlates each response to its request by id.
//!
//! The transport itself — HTTP discovery, the persistent socket, file
//! handling — lives outside this crate and exchanges plain values with it.

use vstd::prelude::*;

pub mod client;
pub mod emit;
pub mod json;
pub mod load;
pub mod schema;
pub mod text;

verus! {

/// Appends one character to a string.
///
/// Relies on String::push: appends the given char to the end of this String.
#[verifier::external_body]
pub fn push_char(s: &mut String, c: char)
    ensures
        final(s)@ == old(s)@ + seq![c],
{
    s.push(c)
}

} // verus!
