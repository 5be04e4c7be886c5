//! Which functions can be an entry point, and what they become.

use super::args::{crate_of, last_name, parse, placement_of, Arg, Args};
use vstd::prelude::*;

verus! {

/// How a function is declared, as far as it matters here.
#[derive(Debug, Clone, Copy, PartialEq, Eq, Structural)]
pub struct Signature {
    /// It is `async`.
    pub is_async: bool,
    /// It has to be called with care.
    pub is_unsafe: bool,
    /// It can be run while compiling.
    pub is_const: bool,
    /// It names a calling convention.
    pub has_abi: bool,
    /// It has parameters to be instantiated.
    pub is_generic: bool,
    /// It has a `where` clause.
    pub has_where: bool,
    /// It takes arguments.
    pub takes_arguments: bool,
}

/// Why a function cannot be an entry point.
#[derive(Debug, Clone, Copy, PartialEq, Eq, Structural)]
pub enum Refusal {
    /// There is nothing to run an executor for.
    NotAsync,
    /// The executor is what calls it, not the caller.
    Unsafe,
    /// It could not be `async` too.
    Const,
    /// The executor calls it directly.
    Abi,
    /// Nothing instantiates the parameters.
    Generic,
    /// Nothing instantiates the parameters.
    Where,
    /// The executor has nothing to pass one.
    Arguments,
    /// The executor runs on the calling thread and has none of its own to
    /// name. Threading the argument through anyway would accept an option and
    /// silently drop it.
    Named,
}

/// What a function becomes.
#[derive(Debug)]
pub struct Expansion {
    /// It is marked as a test.
    pub test_attr: bool,
    /// What the runtime crate is called.
    pub krate: String,
    /// Where the executor runs.
    pub placement: String,
}

/// The first thing that is wrong with a function as an entry point.
pub open spec fn refusal(signature: Signature, named: bool) -> Option<Refusal> {
    if !signature.is_async {
        Some(Refusal::NotAsync)
    } else if signature.is_unsafe {
        Some(Refusal::Unsafe)
    } else if signature.is_const {
        Some(Refusal::Const)
    } else if signature.has_abi {
        Some(Refusal::Abi)
    } else if signature.is_generic {
        Some(Refusal::Generic)
    } else if signature.has_where {
        Some(Refusal::Where)
    } else if signature.takes_arguments {
        Some(Refusal::Arguments)
    } else if named {
        Some(Refusal::Named)
    } else {
        None
    }
}

/// What a function becomes: one that builds an executor with the placement
/// asked for and runs the body on it.
pub fn expand(args: Vec<Arg>, signature: &Signature, default_placement: &String, is_test: bool) -> (expansion: Result<
    Expansion,
    Refusal,
>)
    ensures
        match expansion {
            Err(why) => refusal(*signature, last_name(args@) is Some) == Some(why),
            Ok(expansion) => {
                &&& refusal(*signature, last_name(args@) is Some) is None
                &&& expansion.test_attr == is_test
                &&& expansion.krate@ == crate_of(args@)
                &&& expansion.placement@ == placement_of(args@, default_placement@)
            },
        },
{
    let args: Args = parse(args, default_placement);
    if !signature.is_async {
        return Err(Refusal::NotAsync);
    }
    if signature.is_unsafe {
        return Err(Refusal::Unsafe);
    }
    if signature.is_const {
        return Err(Refusal::Const);
    }
    if signature.has_abi {
        return Err(Refusal::Abi);
    }
    if signature.is_generic {
        return Err(Refusal::Generic);
    }
    if signature.has_where {
        return Err(Refusal::Where);
    }
    if signature.takes_arguments {
        return Err(Refusal::Arguments);
    }
    if args.name.is_some() {
        return Err(Refusal::Named);
    }
    Ok(Expansion { test_attr: is_test, krate: args.krate, placement: args.placement })
}

/// What is said of [`Refusal::NotAsync`].
pub const NOT_ASYNC: &'static str = "expected an `async fn`; this attribute builds an executor to run one on";

/// What is said of [`Refusal::Unsafe`].
pub const NOT_SAFE: &'static str = "expected a safe `async fn`; a `main`/`test` entry point cannot be `unsafe` because the executor is what calls it, not the caller. Move the unsafe code inside the body instead";

/// What is said of [`Refusal::Const`].
pub const NOT_RUN_TIME: &'static str = "expected a non-`const` `async fn`; `const` and `async` cannot be combined, so a `main`/`test` entry point cannot be `const` either";

/// What is said of [`Refusal::Abi`].
pub const NOT_PLAIN: &'static str = "expected a plain `async fn`; an explicit ABI is not meaningful on a `main`/`test` entry point, which the executor calls directly";

/// What is said of [`Refusal::Generic`].
pub const NOT_CONCRETE: &'static str = "expected a non-generic `async fn`; `main`/`test` entry points cannot be generic because nothing instantiates the parameters. Build the executor with `LocalExecutorBuilder` inside a non-generic wrapper if you need one";

/// What is said of [`Refusal::Where`].
pub const NOT_UNBOUNDED: &'static str = "expected a `where`-clause-free `async fn`; `main`/`test` entry points cannot be generic because nothing instantiates the parameters. Build the executor with `LocalExecutorBuilder` inside a non-generic wrapper if you need one";

/// What is said of [`Refusal::Arguments`].
pub const NOT_NULLARY: &'static str = "expected a function taking no arguments; the executor has nothing to pass one";

/// What is said of [`Refusal::Named`].
pub const NOT_NAMEABLE: &'static str = "`name` cannot be honoured here: this attribute builds the executor on the calling thread with `make()`, which has no thread of its own to name. Use `LocalExecutorBuilder::new(placement).name(..).spawn(..)` if you want a named executor thread";

impl Refusal {
    /// What is said of it.
    pub fn message(self) -> (message: &'static str)
        ensures
            message == match self {
                Refusal::NotAsync => NOT_ASYNC,
                Refusal::Unsafe => NOT_SAFE,
                Refusal::Const => NOT_RUN_TIME,
                Refusal::Abi => NOT_PLAIN,
                Refusal::Generic => NOT_CONCRETE,
                Refusal::Where => NOT_UNBOUNDED,
                Refusal::Arguments => NOT_NULLARY,
                Refusal::Named => NOT_NAMEABLE,
            },
    {
        match self {
            Refusal::NotAsync => NOT_ASYNC,
            Refusal::Unsafe => NOT_SAFE,
            Refusal::Const => NOT_RUN_TIME,
            Refusal::Abi => NOT_PLAIN,
            Refusal::Generic => NOT_CONCRETE,
            Refusal::Where => NOT_UNBOUNDED,
            Refusal::Arguments => NOT_NULLARY,
            Refusal::Named => NOT_NAMEABLE,
        }
    }
}

/// A function is refused exactly where something is wrong with it, and for
/// something that is: what it is refused for holds of it, and nothing that is
/// looked at earlier does.
pub proof fn law_what_is_refused(signature: Signature, named: bool)
    ensures
        refusal(signature, named) is None <==> signature.is_async && !signature.is_unsafe && !signature.is_const
            && !signature.has_abi && !signature.is_generic && !signature.has_where && !signature.takes_arguments && !named,
        refusal(signature, named) == Some(Refusal::NotAsync) <==> !signature.is_async,
        refusal(signature, named) == Some(Refusal::Unsafe) <==> signature.is_async && signature.is_unsafe,
        refusal(signature, named) == Some(Refusal::Const) ==> signature.is_const && !signature.is_unsafe,
        refusal(signature, named) == Some(Refusal::Abi) ==> signature.has_abi && !signature.is_const,
        refusal(signature, named) == Some(Refusal::Generic) ==> signature.is_generic && !signature.has_abi,
        refusal(signature, named) == Some(Refusal::Where) ==> signature.has_where && !signature.is_generic,
        refusal(signature, named) == Some(Refusal::Arguments) ==> signature.takes_arguments && !signature.has_where
            && !signature.is_generic,
        refusal(signature, named) == Some(Refusal::Named) ==> named && refusal(signature, false) is None,
        refusal(signature, false) is Some ==> refusal(signature, named) == refusal(signature, false),
{
}

} // verus!
