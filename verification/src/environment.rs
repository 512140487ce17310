//! The environment interpolator: every value of the environment is resolved
//! on its own, and the results come back under their keys, in the order of
//! the input. One failure fails the whole environment.

use vstd::prelude::*;
use crate::failure::{Failure, FailureView, MissingSetting};
use crate::reference::{
    is_reference, parse_reference, parsed_view, spec_parse, ReferenceView, SecretReference,
};
use crate::resolve::{find_secret, spec_find_secret};
use crate::store::{outcome_view, Fields, ReadOutcome, StoreConfig, StoreFault};

verus! {

/// An environment as the contracts speak of it.
pub type EnvView = Seq<(Seq<char>, Seq<char>)>;

/// The outcomes of the reads as the contracts speak of them.
pub type OutcomesView = Seq<Option<Result<Fields, StoreFault>>>;

/// The view of an environment.
pub open spec fn env_view(env: Seq<(String, String)>) -> EnvView {
    Seq::new(env.len(), |i: int| (env[i].0@, env[i].1@))
}

/// The view of the outcomes of the reads made for an environment.
pub open spec fn outcomes_view(outcomes: Seq<Option<ReadOutcome>>) -> OutcomesView {
    Seq::new(
        outcomes.len(),
        |i: int|
            match outcomes[i] {
                Some(outcome) => outcome_view(Some(&outcome)),
                None => None,
            },
    )
}

/// The outcome that belongs to entry `i`; an entry past the end of the
/// outcomes has had no read.
pub open spec fn outcome_at(outcomes: OutcomesView, i: int) -> Option<Result<Fields, StoreFault>> {
    if 0 <= i < outcomes.len() {
        outcomes[i]
    } else {
        None
    }
}

/// What the value of entry `i` resolves to.
pub open spec fn entry_result(env: EnvView, outcomes: OutcomesView, i: int) -> Result<
    Seq<char>,
    FailureView,
> {
    spec_find_secret(env[i].1, outcome_at(outcomes, i))
}

/// `r` is the materialized environment of `env`: every key in its place with
/// what its value resolves to, or the failure of the first entry that fails.
pub open spec fn interpolated(env: EnvView, outcomes: OutcomesView, r: Result<EnvView, FailureView>) -> bool {
    match r {
        Ok(out) => {
            &&& out.len() == env.len()
            &&& forall|i: int|
                0 <= i < env.len() ==> (#[trigger] out[i]).0 == env[i].0 && entry_result(
                    env,
                    outcomes,
                    i,
                ) == Ok::<Seq<char>, FailureView>(out[i].1)
        },
        Err(e) => exists|i: int|
            {
                &&& 0 <= i < env.len()
                &&& #[trigger] entry_result(env, outcomes, i) == Err::<Seq<char>, FailureView>(e)
                &&& forall|j: int| 0 <= j < i ==> (#[trigger] entry_result(env, outcomes, j)) is Ok
            },
    }
}

/// `r` is the plan of `env`: for every entry the secret that has to be read
/// for it (`None` for a literal), or the failure of the first value that
/// does not parse.
pub open spec fn planned(env: EnvView, r: Result<Seq<Option<ReferenceView>>, FailureView>) -> bool {
    match r {
        Ok(plan) => {
            &&& plan.len() == env.len()
            &&& forall|i: int|
                0 <= i < env.len() ==> spec_parse(env[i].1) == Ok::<
                    Option<ReferenceView>,
                    FailureView,
                >(#[trigger] plan[i])
        },
        Err(e) => exists|i: int|
            {
                &&& 0 <= i < env.len()
                &&& #[trigger] spec_parse(env[i].1) == Err::<Option<ReferenceView>, FailureView>(e)
                &&& forall|j: int| 0 <= j < i ==> (#[trigger] spec_parse(env[j].1)) is Ok
            },
    }
}

/// The view of a materialized environment or of the failure in its place.
pub open spec fn interpolation_view(r: Result<Vec<(String, String)>, Failure>) -> Result<
    EnvView,
    FailureView,
> {
    match r {
        Ok(out) => Ok(env_view(out@)),
        Err(e) => Err(e@),
    }
}

/// The view of a plan or of the failure in its place.
pub open spec fn plan_view(r: Result<Vec<Option<SecretReference>>, Failure>) -> Result<
    Seq<Option<ReferenceView>>,
    FailureView,
> {
    match r {
        Ok(plan) => Ok(
            Seq::new(
                plan.len() as nat,
                |i: int|
                    match plan[i] {
                        Some(reference) => Some(reference@),
                        None => None,
                    },
            ),
        ),
        Err(e) => Err(e@),
    }
}

/// Says, entry by entry, which secret has to be read before the environment
/// can be materialized. Nothing is to be read when any value fails to parse.
pub fn plan_environment(env: &Vec<(String, String)>) -> (r: Result<
    Vec<Option<SecretReference>>,
    Failure,
>)
    ensures
        planned(env_view(env@), plan_view(r)),
{
    let mut plan: Vec<Option<SecretReference>> = Vec::new();
    let mut i: usize = 0;
    while i < env.len()
        invariant
            i <= env.len(),
            plan.len() == i,
            forall|j: int|
                0 <= j < i ==> spec_parse(env@[j].1@) == parsed_view(
                    Ok::<Option<SecretReference>, Failure>(#[trigger] plan@[j]),
                ),
        decreases env.len() - i,
    {
        let parsed = parse_reference(env[i].1.as_str());
        match parsed {
            Ok(request) => {
                plan.push(request);
            },
            Err(e) => {
                proof {
                    let ev = env_view(env@);
                    assert(spec_parse(ev[i as int].1) == Err::<Option<ReferenceView>, FailureView>(
                        e@,
                    ));
                    assert forall|j: int| 0 <= j < i implies (#[trigger] spec_parse(
                        ev[j].1,
                    )) is Ok by {
                        assert(spec_parse(env@[j].1@) == parsed_view(
                            Ok::<Option<SecretReference>, Failure>(plan@[j]),
                        ));
                    }
                }
                return Err(e);
            },
        }
        i += 1;
    }
    proof {
        let ev = env_view(env@);
        let pv = plan_view(Ok(plan))->Ok_0;
        assert forall|j: int| 0 <= j < ev.len() implies spec_parse(ev[j].1) == Ok::<
            Option<ReferenceView>,
            FailureView,
        >(#[trigger] pv[j]) by {
            assert(spec_parse(env@[j].1@) == parsed_view(
                Ok::<Option<SecretReference>, Failure>(plan@[j]),
            ));
        }
    }
    Ok(plan)
}

/// Begins a run: the store configuration is looked at before anything is
/// resolved. Without an address, or without a token, the run fails at once
/// and nothing is planned, whatever the environment holds; with both, the
/// result is the configuration and the plan of the environment.
pub fn begin_run(address: Option<String>, token: Option<String>, env: &Vec<(String, String)>) -> (r:
    Result<(StoreConfig, Vec<Option<SecretReference>>), Failure>)
    ensures
        address is None ==> r == Err::<(StoreConfig, Vec<Option<SecretReference>>), Failure>(
            Failure::Configuration(MissingSetting::Address),
        ),
        address is Some && token is None ==> r == Err::<
            (StoreConfig, Vec<Option<SecretReference>>),
            Failure,
        >(Failure::Configuration(MissingSetting::Token)),
        address is Some && token is Some ==> match r {
            Ok((config, plan)) => {
                &&& config == (StoreConfig { address: address->Some_0, token: token->Some_0 })
                &&& planned(env_view(env@), plan_view(Ok(plan)))
            },
            Err(e) => planned(env_view(env@), Err(e@)),
        },
{
    match StoreConfig::new(address, token) {
        Err(e) => Err(e),
        Ok(config) => match plan_environment(env) {
            Err(e) => Err(e),
            Ok(plan) => Ok((config, plan)),
        },
    }
}

/// Materializes the environment. `outcomes[i]` is what the read planned for
/// entry `i` ended in, and `None` where none was made.
///
/// Keys keep their places. A literal value is handed on unchanged. The first
/// entry, in the order of `env`, that cannot be resolved fails the whole
/// environment.
pub fn interpolate_env(env: &Vec<(String, String)>, outcomes: &Vec<Option<ReadOutcome>>) -> (r:
    Result<Vec<(String, String)>, Failure>)
    ensures
        interpolated(env_view(env@), outcomes_view(outcomes@), interpolation_view(r)),
        forall|i: int|
            #![trigger env@[i]]
            r is Ok && 0 <= i < env.len() && !is_reference(env@[i].1@) ==> r->Ok_0@.len()
                == env.len() && r->Ok_0@[i].0@ == env@[i].0@ && r->Ok_0@[i].1@ == env@[i].1@,
{
    let ghost ev = env_view(env@);
    let ghost ov = outcomes_view(outcomes@);
    let mut out: Vec<(String, String)> = Vec::new();
    let mut i: usize = 0;
    while i < env.len()
        invariant
            i <= env.len(),
            out.len() == i,
            ev == env_view(env@),
            ov == outcomes_view(outcomes@),
            forall|j: int|
                0 <= j < i ==> (#[trigger] out@[j]).0@ == ev[j].0 && entry_result(ev, ov, j) == Ok::<
                    Seq<char>,
                    FailureView,
                >(out@[j].1@),
        decreases env.len() - i,
    {
        let outcome = if i < outcomes.len() {
            outcomes[i].as_ref()
        } else {
            None
        };
        proof {
            assert(outcome_view(outcome) == outcome_at(ov, i as int));
        }
        match find_secret(env[i].0.as_str(), env[i].1.as_str(), outcome) {
            Ok(pair) => {
                out.push(pair);
            },
            Err(e) => {
                proof {
                    assert(entry_result(ev, ov, i as int) == Err::<Seq<char>, FailureView>(e@));
                    assert forall|j: int| 0 <= j < i implies (#[trigger] entry_result(
                        ev,
                        ov,
                        j,
                    )) is Ok by {
                        assert(out@[j].0@ == ev[j].0);
                    }
                }
                return Err(e);
            },
        }
        i += 1;
    }
    proof {
        let rv = env_view(out@);
        assert forall|j: int| 0 <= j < ev.len() implies (#[trigger] rv[j]).0 == ev[j].0
            && entry_result(ev, ov, j) == Ok::<Seq<char>, FailureView>(rv[j].1) by {
            assert(out@[j].0@ == ev[j].0);
        }
    }
    Ok(out)
}

/// An environment of literal values comes back as it went in, whatever the
/// outcomes say.
pub proof fn law_literals_pass_unchanged(
    env: EnvView,
    outcomes: OutcomesView,
    r: Result<EnvView, FailureView>,
)
    requires
        forall|i: int| 0 <= i < env.len() ==> !is_reference((#[trigger] env[i]).1),
        interpolated(env, outcomes, r),
    ensures
        r == Ok::<EnvView, FailureView>(env),
{
    match r {
        Ok(out) => {
            assert forall|i: int| 0 <= i < env.len() implies out[i] == env[i] by {
                assert(!is_reference(env[i].1));
                assert(entry_result(env, outcomes, i) == Ok::<Seq<char>, FailureView>(out[i].1));
            }
            assert(out =~= env);
        },
        Err(e) => {
            let i = choose|i: int|
                0 <= i < env.len() && #[trigger] entry_result(env, outcomes, i) == Err::<
                    Seq<char>,
                    FailureView,
                >(e);
            assert(!is_reference(env[i].1));
        },
    }
}

} // verus!
