//! The decisions a function call makes around running its body: the arity
//! check, builtins, constructors, the depth limit, and what the body's
//! outcome becomes for the caller.

use vstd::prelude::*;
use crate::span::Span;
use crate::text::{push_u64, str_eq};
use super::builtins::{arity_message, failure_is};
use super::failure::{Failure, FailureKind, Frame};
use super::values::Value;

verus! {

/// The deepest a call may nest before it fails with `StackOverflow`.
pub const MAX_CALL_DEPTH: usize = 48;

/// What a function value runs when called.
pub enum Callable {
    /// A named function or a lambda, with a body to run.
    Body,
    /// An enum variant's constructor.
    Constructor { enum_name: String, variant: String },
}

/// A function value as a call sees it.
pub struct Callee {
    pub name: String,
    pub arity: usize,
    pub callable: Callable,
}

/// How a call starts.
pub enum CallStart {
    /// The call fails before anything runs.
    Fail(Failure),
    /// The builtin of that name runs on the arguments.
    Builtin(Vec<Value>),
    /// The call's value is known at once.
    Done(Value),
    /// The body runs with these arguments, the frame pushed and the depth
    /// one deeper.
    Enter { args: Vec<Value>, frame: Frame, depth: usize },
}

/// How a body ended.
pub enum Control {
    /// It produced a value.
    Value(Value),
    /// A `return` gave a value.
    Return(Value),
    /// A `break` left it.
    Break,
    /// A `continue` left it.
    Continue,
}

/// Whether `name` is a builtin of the prelude.
pub open spec fn is_builtin_name(name: Seq<char>) -> bool {
    name == "print"@ || name == "len"@ || name == "range"@ || name == "str"@ || name == "int"@
        || name == "float"@ || name == "assert"@ || name == "Ok"@ || name == "Err"@
}

/// Whether `name` is a builtin of the prelude.
pub fn builtin_name(name: &str) -> (b: bool)
    ensures
        b == is_builtin_name(name@),
{
    str_eq(name, "print") || str_eq(name, "len") || str_eq(name, "range") || str_eq(name, "str")
        || str_eq(name, "int") || str_eq(name, "float") || str_eq(name, "assert") || str_eq(name, "Ok")
        || str_eq(name, "Err")
}

/// The failure of a call at the depth limit.
pub open spec fn overflow_message() -> Seq<char> {
    "call depth exceeded 48 (possible infinite recursion)"@
}

/// Starts a call of `f` with `args` at call depth `depth`: a wrong argument
/// count fails; a builtin (by name) runs; a constructor builds its variant;
/// at the depth limit the call fails with `StackOverflow`; otherwise the
/// body is entered one level deeper with a frame for the call.
pub fn start_call(f: &Callee, args: Vec<Value>, depth: usize, span: Span) -> (r: CallStart)
    ensures
        args@.len() != f.arity ==> (r matches CallStart::Fail(e) && failure_is(e, FailureKind::Unsupported,
            arity_message(f.name@, f.arity as nat, args@.len()), span)),
        args@.len() == f.arity && is_builtin_name(f.name@) ==> r == CallStart::Builtin(args),
        args@.len() == f.arity && !is_builtin_name(f.name@) ==> match f.callable {
            Callable::Constructor { enum_name, variant } => (r matches CallStart::Done(Value::Variant { enum_name: e2, variant: v2, payload })
                && e2@ == enum_name@ && v2@ == variant@ && payload@ == args@),
            Callable::Body => if depth >= MAX_CALL_DEPTH {
                r matches CallStart::Fail(e) && failure_is(e, FailureKind::StackOverflow, overflow_message(), span)
            } else {
                r matches CallStart::Enter { args: a, frame, depth: d }
                    && a@ == args@ && frame.function@ == f.name@ && frame.span == span && d == depth + 1
            },
        },
{
    if args.len() != f.arity {
        let mut m = String::new();
        crate::text::push_char(&mut m, '`');
        m.append(f.name.as_str());
        m.append("` takes ");
        push_u64(&mut m, f.arity as u64);
        m.append(" argument(s) but ");
        push_u64(&mut m, args.len() as u64);
        m.append(" were given");
        assert(m@ =~= arity_message(f.name@, f.arity as nat, args@.len()));
        return CallStart::Fail(Failure::new(FailureKind::Unsupported, m.as_str(), span));
    }
    if builtin_name(f.name.as_str()) {
        return CallStart::Builtin(args);
    }
    match &f.callable {
        Callable::Constructor { enum_name, variant } => {
            CallStart::Done(Value::Variant { enum_name: enum_name.clone(), variant: variant.clone(), payload: args })
        },
        Callable::Body => {
            if depth >= MAX_CALL_DEPTH {
                proof { reveal_strlit("call depth exceeded 48 (possible infinite recursion)"); }
                return CallStart::Fail(Failure::new(FailureKind::StackOverflow,
                    "call depth exceeded 48 (possible infinite recursion)", span));
            }
            CallStart::Enter { args, frame: Frame { function: f.name.clone(), span }, depth: depth + 1 }
        },
    }
}

/// Ends a call entered at depth `depth` (the depth of the body): the depth
/// goes back one level, and the body's outcome becomes the call's result.
/// Control flow cannot leave a function: a `break` or `continue` still
/// pending from the body (`leaked`), or one that ended the body, fails.
pub fn finish_call(outcome: Result<Control, Failure>, leaked: bool, depth: usize, span: Span)
    -> (r: (Result<Value, Failure>, usize))
    ensures
        r.1 == if depth > 0 { depth - 1 } else { 0 },
        match outcome {
            Err(e) => r.0 == Err::<Value, Failure>(e),
            Ok(c) => if leaked {
                r.0 matches Err(e) && failure_is(e, FailureKind::Unsupported,
                    "`break` or `continue` cannot leave the function that contains it"@, span)
            } else {
                match c {
                    Control::Value(v) => r.0 == Ok::<Value, Failure>(v),
                    Control::Return(v) => r.0 == Ok::<Value, Failure>(v),
                    _ => r.0 matches Err(e) && failure_is(e, FailureKind::Unsupported,
                        "`break` or `continue` outside a loop"@, span),
                }
            },
        },
{
    let d = if depth > 0 { depth - 1 } else { 0 };
    let result = match outcome {
        Err(e) => Err(e),
        Ok(c) => {
            if leaked {
                proof { reveal_strlit("`break` or `continue` cannot leave the function that contains it"); }
                Err(Failure::new(FailureKind::Unsupported,
                    "`break` or `continue` cannot leave the function that contains it", span))
            } else {
                match c {
                    Control::Value(v) => Ok(v),
                    Control::Return(v) => Ok(v),
                    _ => {
                        proof { reveal_strlit("`break` or `continue` outside a loop"); }
                        Err(Failure::new(FailureKind::Unsupported, "`break` or `continue` outside a loop", span))
                    },
                }
            }
        },
    };
    (result, d)
}

} // verus!
