//! What the command line asks for: `run -- <command> <args...>` or `inject`.

use vstd::prelude::*;
use vstd::string::*;
use crate::failure::{Failure, FailureView, UsageFault};
use crate::text::same_text;

verus! {

/// The mode word of the pipeline that materializes the environment and
/// runs a command in it.
pub const RUN: &'static str = "run";

/// The mode word of the pipeline that rewrites lines of text.
pub const INJECT: &'static str = "inject";

/// The argument after which the command to run begins.
pub const SEPARATOR: &'static str = "--";

/// What is to be done.
#[derive(Debug, Clone, PartialEq, Eq)]
pub enum Invocation {
    /// Run `program` with `arguments` in the materialized environment.
    Run { program: String, arguments: Vec<String> },
    /// Rewrite standard input to standard output.
    Inject,
}

/// An [`Invocation`] with its texts as sequences of characters.
pub enum InvocationView {
    Run { program: Seq<char>, arguments: Seq<Seq<char>> },
    Inject,
}

/// The texts of a list of strings.
pub open spec fn texts(list: Seq<String>) -> Seq<Seq<char>> {
    list.map_values(|s: String| s@)
}

impl View for Invocation {
    type V = InvocationView;

    open spec fn view(&self) -> InvocationView {
        match *self {
            Invocation::Run { program, arguments } => InvocationView::Run {
                program: program@,
                arguments: texts(arguments@),
            },
            Invocation::Inject => InvocationView::Inject,
        }
    }
}

/// The view of an invocation or of the failure in its place.
pub open spec fn invocation_view(r: Result<Invocation, Failure>) -> Result<
    InvocationView,
    FailureView,
> {
    match r {
        Ok(invocation) => Ok(invocation@),
        Err(e) => Err(e@),
    }
}

/// `at` is the place of the first separator among `args`.
pub open spec fn first_separator(args: Seq<Seq<char>>, at: int) -> bool {
    &&& 0 <= at < args.len()
    &&& args[at] == SEPARATOR@
    &&& forall|j: int| 0 <= j < at ==> #[trigger] args[j] != SEPARATOR@
}

/// `r` is what `run`, given the whole argument list `args`, asks for: the
/// command is what follows the first separator, its first word the program.
pub open spec fn run_requested(args: Seq<Seq<char>>, r: Result<InvocationView, FailureView>) -> bool {
    match r {
        Ok(InvocationView::Run { program, arguments }) => exists|at: int|
            {
                &&& #[trigger] first_separator(args, at)
                &&& at + 1 < args.len()
                &&& program == args[at + 1]
                &&& arguments == args.subrange(at + 2, args.len() as int)
            },
        Ok(InvocationView::Inject) => false,
        Err(FailureView::Usage(UsageFault::MissingSeparator)) => forall|j: int|
            0 <= j < args.len() ==> #[trigger] args[j] != SEPARATOR@,
        Err(FailureView::Usage(UsageFault::MissingProgram)) => first_separator(
            args,
            args.len() - 1,
        ),
        Err(_) => false,
    }
}

/// `r` is what the mode word `command` and the whole argument list `args`
/// ask for.
pub open spec fn requested(
    command: Seq<char>,
    args: Seq<Seq<char>>,
    r: Result<InvocationView, FailureView>,
) -> bool {
    if command == RUN@ {
        run_requested(args, r)
    } else if command == INJECT@ {
        r == Ok::<InvocationView, FailureView>(InvocationView::Inject)
    } else {
        r == Err::<InvocationView, FailureView>(FailureView::Usage(UsageFault::UnknownCommand))
    }
}

/// Reads the invocation from the mode word and the whole argument list of
/// the process.
pub fn parse_invocation(command: &str, args: &Vec<String>) -> (r: Result<Invocation, Failure>)
    ensures
        requested(command@, texts(args@), invocation_view(r)),
{
    if same_text(command, INJECT) {
        proof {
            reveal_strlit("run");
            reveal_strlit("inject");
            assert(RUN@.len() != INJECT@.len());
        }
        return Ok(Invocation::Inject);
    }
    if !same_text(command, RUN) {
        return Err(Failure::Usage(UsageFault::UnknownCommand));
    }
    let ghost all = texts(args@);
    let mut at: usize = 0;
    while at < args.len() && !same_text(args[at].as_str(), SEPARATOR)
        invariant
            at <= args.len(),
            all == texts(args@),
            forall|j: int| 0 <= j < at ==> #[trigger] all[j] != SEPARATOR@,
        decreases args.len() - at,
    {
        at += 1;
    }
    if at == args.len() {
        return Err(Failure::Usage(UsageFault::MissingSeparator));
    }
    assert(first_separator(all, at as int));
    if at + 1 == args.len() {
        return Err(Failure::Usage(UsageFault::MissingProgram));
    }
    let program = args[at + 1].clone();
    let mut arguments: Vec<String> = Vec::new();
    let mut next: usize = at + 2;
    while next < args.len()
        invariant
            at + 2 <= next <= args.len(),
            all == texts(args@),
            texts(arguments@) == all.subrange(at + 2, next as int),
        decreases args.len() - next,
    {
        let ghost before = texts(arguments@);
        arguments.push(args[next].clone());
        proof {
            assert(texts(arguments@) =~= before.push(all[next as int]));
            assert(all.subrange(at + 2, next + 1) =~= before.push(all[next as int]));
        }
        next += 1;
    }
    Ok(Invocation::Run { program, arguments })
}

} // verus!
