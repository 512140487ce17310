//! What the secret store is to the rest of the library: how to reach it,
//! what a read of one secret gives back, and how a field is picked from it.

use vstd::prelude::*;
use vstd::string::*;
use crate::failure::{Failure, FailureView, MissingSetting};
use crate::text::same_text;

verus! {

/// Field names and their plaintext values, as the contracts speak of them.
pub type Fields = Map<Seq<char>, Seq<char>>;

/// What one read of a secret ends in.
pub type ReadOutcome = Result<FieldMap, StoreFault>;

/// Address and access token of the store. Both are required.
pub struct StoreConfig {
    pub address: String,
    pub token: String,
}

impl StoreConfig {
    /// Builds the configuration from what the surroundings supplied; the
    /// address is looked at first.
    pub fn new(address: Option<String>, token: Option<String>) -> (r: Result<StoreConfig, Failure>)
        ensures
            r == match (address, token) {
                (Some(a), Some(t)) => Ok::<StoreConfig, Failure>(StoreConfig { address: a, token: t }),
                (None, _) => Err(Failure::Configuration(MissingSetting::Address)),
                (Some(_), None) => Err(Failure::Configuration(MissingSetting::Token)),
            },
    {
        match address {
            None => Err(Failure::Configuration(MissingSetting::Address)),
            Some(a) => match token {
                None => Err(Failure::Configuration(MissingSetting::Token)),
                Some(t) => Ok(StoreConfig { address: a, token: t }),
            },
        }
    }
}

/// Why a read gave no field map.
#[derive(Debug, Clone, Copy, PartialEq, Eq, Structural)]
pub enum StoreFault {
    /// The request did not complete.
    Unreachable,
    /// The store refused the access token.
    AuthRejected,
}

/// The fault that an error status of the store stands for: 401 and 403 mean
/// that the token was refused, and any other status that the read did not
/// complete.
pub fn fault_for_status(code: u16) -> (fault: StoreFault)
    ensures
        fault == if code == 401 || code == 403 {
            StoreFault::AuthRejected
        } else {
            StoreFault::Unreachable
        },
{
    if code == 401 || code == 403 {
        StoreFault::AuthRejected
    } else {
        StoreFault::Unreachable
    }
}

/// The map that a list of `(name, value)` entries stands for: a later entry
/// replaces an earlier one of the same name.
pub open spec fn fields_of(entries: Seq<(String, String)>) -> Fields
    decreases entries.len(),
{
    if entries.len() == 0 {
        Map::empty()
    } else {
        fields_of(entries.drop_last()).insert(entries.last().0@, entries.last().1@)
    }
}

proof fn lemma_fields_found(entries: Seq<(String, String)>, name: Seq<char>, at: int)
    requires
        0 <= at < entries.len(),
        entries[at].0@ == name,
        forall|j: int| at < j < entries.len() ==> (#[trigger] entries[j]).0@ != name,
    ensures
        fields_of(entries).contains_key(name),
        fields_of(entries)[name] == entries[at].1@,
    decreases entries.len(),
{
    if at < entries.len() - 1 {
        lemma_fields_found(entries.drop_last(), name, at);
    }
}

proof fn lemma_fields_absent(entries: Seq<(String, String)>, name: Seq<char>)
    requires
        forall|j: int| 0 <= j < entries.len() ==> (#[trigger] entries[j]).0@ != name,
    ensures
        !fields_of(entries).contains_key(name),
    decreases entries.len(),
{
    if entries.len() > 0 {
        lemma_fields_absent(entries.drop_last(), name);
    }
}

/// The fields stored together at one secret path. It holds plaintext, so
/// it cannot be printed.
#[derive(Clone)]
pub struct FieldMap {
    entries: Vec<(String, String)>,
}

impl View for FieldMap {
    type V = Fields;

    closed spec fn view(&self) -> Fields {
        fields_of(self.entries@)
    }
}

impl FieldMap {
    /// A field map without fields.
    pub fn new() -> (fields: FieldMap)
        ensures
            fields@ == Fields::empty(),
    {
        FieldMap { entries: Vec::new() }
    }

    /// Sets the value of `name`, replacing the one it had.
    pub fn insert(&mut self, name: String, value: String)
        ensures
            final(self)@ == old(self)@.insert(name@, value@),
    {
        let ghost before = self.entries@;
        self.entries.push((name, value));
        proof {
            assert(self.entries@.drop_last() =~= before);
        }
    }

    /// The value of `name`, if there is one.
    pub fn get(&self, name: &str) -> (value: Option<&String>)
        ensures
            match value {
                Some(v) => self@.contains_key(name@) && self@[name@] == v@,
                None => !self@.contains_key(name@),
            },
    {
        let mut i: usize = self.entries.len();
        while i > 0
            invariant
                i <= self.entries.len(),
                forall|j: int| i <= j < self.entries.len() ==> (#[trigger] self.entries@[j]).0@ != name@,
            decreases i,
        {
            i -= 1;
            if same_text(self.entries[i].0.as_str(), name) {
                proof {
                    lemma_fields_found(self.entries@, name@, i as int);
                }
                return Some(&self.entries[i].1);
            }
        }
        proof {
            lemma_fields_absent(self.entries@, name@);
        }
        None
    }
}

/// An outcome as the contracts speak of it; `None` stands for a read that
/// was never made.
pub open spec fn outcome_view(outcome: Option<&ReadOutcome>) -> Option<Result<Fields, StoreFault>> {
    match outcome {
        None => None,
        Some(Ok(fields)) => Some(Ok(fields@)),
        Some(Err(fault)) => Some(Err(*fault)),
    }
}

/// The plaintext of `field` in what a read gave back.
///
/// A read that was not made or did not complete is an unreachable store, a
/// refused token an authentication error, and a field map without the field
/// a missing field.
pub open spec fn spec_select(field: Seq<char>, outcome: Option<Result<Fields, StoreFault>>) -> Result<
    Seq<char>,
    FailureView,
> {
    match outcome {
        None => Err(FailureView::StoreUnreachable),
        Some(Err(StoreFault::Unreachable)) => Err(FailureView::StoreUnreachable),
        Some(Err(StoreFault::AuthRejected)) => Err(FailureView::AuthError),
        Some(Ok(fields)) => if fields.contains_key(field) {
            Ok(fields[field])
        } else {
            Err(FailureView::FieldNotFound(field))
        },
    }
}

/// The view of a resolved text or of the failure in its place.
pub open spec fn text_view(r: Result<String, Failure>) -> Result<Seq<char>, FailureView> {
    match r {
        Ok(text) => Ok(text@),
        Err(e) => Err(e@),
    }
}

/// Picks `field` from the outcome of the read that was made for it.
pub fn select_field(field: &str, outcome: Option<&ReadOutcome>) -> (r: Result<String, Failure>)
    ensures
        text_view(r) == spec_select(field@, outcome_view(outcome)),
{
    match outcome {
        None => Err(Failure::StoreUnreachable),
        Some(Err(StoreFault::Unreachable)) => Err(Failure::StoreUnreachable),
        Some(Err(StoreFault::AuthRejected)) => Err(Failure::AuthError),
        Some(Ok(fields)) => match fields.get(field) {
            Some(value) => Ok(value.clone()),
            None => Err(Failure::FieldNotFound(field.to_owned())),
        },
    }
}

} // verus!
