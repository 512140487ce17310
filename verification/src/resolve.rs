//! Resolution of one value: a literal stands for itself, a secret reference
//! for the field that the store holds under it.

use vstd::prelude::*;
use vstd::string::*;
use crate::failure::{Failure, FailureView};
use crate::reference::{
    is_reference, law_reference_text_parses, parse_reference, reference_text, segments, spec_parse,
    supported_version, ReferenceView,
};
use crate::store::{outcome_view, select_field, spec_select, Fields, ReadOutcome, StoreFault};

verus! {

/// The plaintext that `val` stands for, given what the read made for it
/// ended in. A literal needs no read and ignores the outcome; a reference
/// that does not parse fails before the outcome is looked at.
pub open spec fn spec_find_secret(val: Seq<char>, outcome: Option<Result<Fields, StoreFault>>) -> Result<
    Seq<char>,
    FailureView,
> {
    match spec_parse(val) {
        Err(e) => Err(e),
        Ok(None) => Ok(val),
        Ok(Some(reference)) => spec_select(reference.field, outcome),
    }
}

/// The view of a resolved `(key, value)` pair or of the failure in its place.
pub open spec fn entry_view(r: Result<(String, String), Failure>) -> Result<
    (Seq<char>, Seq<char>),
    FailureView,
> {
    match r {
        Ok(pair) => Ok((pair.0@, pair.1@)),
        Err(e) => Err(e@),
    }
}

/// `value` under `key`, or the failure that stands in its place.
pub open spec fn keyed(key: Seq<char>, value: Result<Seq<char>, FailureView>) -> Result<
    (Seq<char>, Seq<char>),
    FailureView,
> {
    match value {
        Ok(v) => Ok((key, v)),
        Err(e) => Err(e),
    }
}

/// Resolves the value `val` of `key`. `outcome` is what the read of the
/// secret that `val` refers to ended in, or `None` where no read was made.
pub fn find_secret(key: &str, val: &str, outcome: Option<&ReadOutcome>) -> (r: Result<
    (String, String),
    Failure,
>)
    ensures
        entry_view(r) == keyed(key@, spec_find_secret(val@, outcome_view(outcome))),
        !is_reference(val@) ==> entry_view(r) == Ok::<(Seq<char>, Seq<char>), FailureView>(
            (key@, val@),
        ),
{
    match parse_reference(val) {
        Err(e) => Err(e),
        Ok(None) => Ok((key.to_owned(), val.to_owned())),
        Ok(Some(reference)) => match select_field(reference.field.as_str(), outcome) {
            Ok(plaintext) => Ok((key.to_owned(), plaintext)),
            Err(e) => Err(e),
        },
    }
}

/// The contents of a store: the field map kept at each `(mount, path)`.
pub type StoreContents = Map<(Seq<char>, Seq<char>), Fields>;

/// What a reachable store that accepts the token answers to a read of
/// `(mount, path)`; a secret that it does not hold cannot be read.
pub open spec fn store_answer(store: StoreContents, mount: Seq<char>, path: Seq<char>) -> Option<
    Result<Fields, StoreFault>,
> {
    if store.contains_key((mount, path)) {
        Some(Ok(store[(mount, path)]))
    } else {
        Some(Err(StoreFault::Unreachable))
    }
}

/// Resolution of `val` against a store with the given contents: the one
/// read that `val` asks for is answered by the store.
pub open spec fn spec_resolve(store: StoreContents, val: Seq<char>) -> Result<Seq<char>, FailureView> {
    match spec_parse(val) {
        Ok(Some(reference)) => spec_find_secret(
            val,
            store_answer(store, reference.mount, reference.path),
        ),
        _ => spec_find_secret(val, None),
    }
}

/// A well-formed `v2` reference resolves to exactly the value that the
/// store keeps in the named field of the secret at `(mount, path)`.
pub proof fn law_reference_yields_stored_field(
    store: StoreContents,
    mount: Seq<char>,
    path: Seq<char>,
    field: Seq<char>,
    plaintext: Seq<char>,
)
    requires
        !mount.contains('/'),
        !field.contains('/'),
        store.contains_key((mount, path)),
        store[(mount, path)].contains_pair(field, plaintext),
    ensures
        spec_resolve(store, reference_text(mount, path, field)) == Ok::<Seq<char>, FailureView>(
            plaintext,
        ),
{
    law_reference_text_parses(mount, path, field);
}

/// A reference of four or more segments whose api version is not `v2` fails
/// as unsupported whatever the store would answer, and asks for no read.
pub proof fn law_unsupported_version_is_fatal(val: Seq<char>, outcome: Option<Result<Fields, StoreFault>>)
    requires
        is_reference(val),
        segments(val).len() >= 4,
        segments(val)[0] != supported_version(),
    ensures
        spec_parse(val) == Err::<Option<ReferenceView>, FailureView>(
            FailureView::UnsupportedApiVersion(val),
        ),
        spec_find_secret(val, outcome) == Err::<Seq<char>, FailureView>(
            FailureView::UnsupportedApiVersion(val),
        ),
{
}

/// A reference of fewer than four segments fails as malformed whatever the
/// store would answer, and asks for no read.
pub proof fn law_short_reference_is_fatal(val: Seq<char>, outcome: Option<Result<Fields, StoreFault>>)
    requires
        is_reference(val),
        segments(val).len() < 4,
    ensures
        spec_parse(val) == Err::<Option<ReferenceView>, FailureView>(
            FailureView::MalformedReference(val),
        ),
        spec_find_secret(val, outcome) == Err::<Seq<char>, FailureView>(
            FailureView::MalformedReference(val),
        ),
{
}

/// Two resolutions of one reference whose reads were both answered by a
/// store of the same contents give the same plaintext.
pub proof fn law_resolution_repeats(
    store: StoreContents,
    val: Seq<char>,
    reference: ReferenceView,
    first: Option<Result<Fields, StoreFault>>,
    second: Option<Result<Fields, StoreFault>>,
)
    requires
        spec_parse(val) == Ok::<Option<ReferenceView>, FailureView>(Some(reference)),
        first == store_answer(store, reference.mount, reference.path),
        second == store_answer(store, reference.mount, reference.path),
    ensures
        spec_find_secret(val, first) == spec_find_secret(val, second),
        spec_find_secret(val, first) == spec_resolve(store, val),
{
}

} // verus!
