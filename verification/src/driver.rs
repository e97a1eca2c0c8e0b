//! How the rustc wrapper hands a compilation it does not analyze back to
//! rustc, directly or through a wrapper the user already had.

use vstd::prelude::*;

verus! {

/// The program the wrapper runs in its place, and that program's arguments.
#[derive(Debug, Clone, PartialEq, Eq)]
pub struct PassthroughInvocation<T> {
    pub program: T,
    pub args: Vec<T>,
}

/// Cargo runs the wrapper as `wrapper rustc <rustc arguments>`. Without an
/// existing wrapper, rustc runs with its arguments; with one, that wrapper
/// runs with rustc's path followed by rustc's arguments.
pub open spec fn passthrough_spec<T>(wrapper_args: Seq<T>, rustc_wrapper: Option<T>) -> Option<
    (T, Seq<T>),
> {
    if wrapper_args.len() < 2 {
        None
    } else {
        match rustc_wrapper {
            Some(program) => Some((program, wrapper_args.skip(1))),
            None => Some((wrapper_args[1], wrapper_args.skip(2))),
        }
    }
}

/// Why no invocation could be formed.
#[derive(Debug, Clone, Copy, PartialEq, Eq, Structural)]
pub enum PassthroughError {
    /// The wrapper's arguments do not name rustc.
    MissingRustcPath,
}

impl PassthroughError {
    /// The error's message.
    pub fn message(&self) -> (r: &'static str)
        ensures
            r@ == "compiler driver expected rustc path in wrapper arguments"@,
    {
        match self {
            PassthroughError::MissingRustcPath => "compiler driver expected rustc path in wrapper arguments",
        }
    }
}

impl<T> PassthroughInvocation<T> {
    /// The invocation for the wrapper's own arguments; an error when they do
    /// not name rustc.
    pub fn new(wrapper_args: Vec<T>, rustc_wrapper: Option<T>) -> (r: Result<Self, PassthroughError>)
        ensures
            match passthrough_spec(wrapper_args@, rustc_wrapper) {
                Some((program, args)) => r matches Ok(inv) && inv.program == program
                    && inv.args@ == args,
                None => r == Err::<Self, PassthroughError>(PassthroughError::MissingRustcPath),
            },
    {
        let ghost initial = wrapper_args@;
        if wrapper_args.len() < 2 {
            return Err(PassthroughError::MissingRustcPath);
        }
        let mut rest = wrapper_args;
        let _wrapper = rest.remove(0);
        assert(rest@ =~= initial.skip(1));
        match rustc_wrapper {
            Some(program) => Ok(PassthroughInvocation { program, args: rest }),
            None => {
                let rustc = rest.remove(0);
                assert(rest@ =~= initial.skip(2));
                Ok(PassthroughInvocation { program: rustc, args: rest })
            },
        }
    }
}

} // verus!
