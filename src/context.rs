use vstd::prelude::*;
use crate::error::{value_error, Error, ErrorView};
use crate::value::{Backtrace, ErrorLike, Value, ValueView};

verus! {

/// Attaching context to a fallible result: a success passes through, a
/// failure becomes an [`Error`] with the context outermost.
pub trait Context<T, E>: Sized {
    /// The success held, if any.
    spec fn success(&self) -> Option<T>;

    /// The error a failure becomes with `c` attached.
    spec fn failure_with(&self, c: ValueView) -> ErrorView;

    /// Wraps a failure with `context`.
    fn context(self, context: Value) -> (r: Result<T, Error>)
        ensures
            match r {
                Ok(t) => self.success() == Some(t),
                Err(e) => self.success() is None && e@ == self.failure_with(context@),
            },
    ;

    /// Wraps a failure with the context that `f` makes; `f` runs only on a failure.
    fn with_context<F: FnOnce() -> Value>(self, f: F) -> (r: Result<T, Error>)
        requires
            f.requires(()),
        ensures
            match r {
                Ok(t) => self.success() == Some(t),
                Err(e) => self.success() is None && exists|c: Value|
                    f.ensures((), c) && e@ == self.failure_with(c@),
            },
    ;
}

/// The error that a concrete error value becomes under context `c`.
pub open spec fn like_with_context(x: ErrorLike, c: ValueView) -> ErrorView {
    ErrorView {
        contexts: seq![c],
        base: x.value@,
        causes: x.causes_view(),
        backtrace: x.backtrace@,
    }
}

impl<T> Context<T, Error> for Result<T, Error> {
    open spec fn success(&self) -> Option<T> {
        match self {
            Ok(t) => Some(*t),
            Err(_) => None,
        }
    }

    open spec fn failure_with(&self, c: ValueView) -> ErrorView {
        match self {
            Ok(_) => value_error(c),
            Err(e) => e@.with_context(c),
        }
    }

    fn context(self, context: Value) -> (r: Result<T, Error>) {
        match self {
            Ok(t) => Ok(t),
            Err(e) => Err(e.context(context)),
        }
    }

    fn with_context<F: FnOnce() -> Value>(self, f: F) -> (r: Result<T, Error>) {
        match self {
            Ok(t) => Ok(t),
            Err(e) => {
                let c = f();
                Err(e.context(c))
            },
        }
    }
}

fn wrap_like(x: ErrorLike, c: Value) -> (r: Error)
    ensures
        r@ == like_with_context(x, c@),
{
    let e = Error::new(x, Backtrace::Disabled);
    let r = e.context(c);
    assert(r@.contexts =~= seq![c@]);
    r
}

impl<T> Context<T, ErrorLike> for Result<T, ErrorLike> {
    open spec fn success(&self) -> Option<T> {
        match self {
            Ok(t) => Some(*t),
            Err(_) => None,
        }
    }

    open spec fn failure_with(&self, c: ValueView) -> ErrorView {
        match self {
            Ok(_) => value_error(c),
            Err(x) => like_with_context(*x, c),
        }
    }

    fn context(self, context: Value) -> (r: Result<T, Error>) {
        match self {
            Ok(t) => Ok(t),
            Err(x) => Err(wrap_like(x, context)),
        }
    }

    fn with_context<F: FnOnce() -> Value>(self, f: F) -> (r: Result<T, Error>) {
        match self {
            Ok(t) => Ok(t),
            Err(x) => {
                let c = f();
                Err(wrap_like(x, c))
            },
        }
    }
}

impl<T> Context<T, ()> for Option<T> {
    open spec fn success(&self) -> Option<T> {
        *self
    }

    open spec fn failure_with(&self, c: ValueView) -> ErrorView {
        value_error(c)
    }

    fn context(self, context: Value) -> (r: Result<T, Error>) {
        match self {
            Some(t) => Ok(t),
            None => Err(Error::from_value(context)),
        }
    }

    fn with_context<F: FnOnce() -> Value>(self, f: F) -> (r: Result<T, Error>) {
        match self {
            Some(t) => Ok(t),
            None => {
                let c = f();
                Err(Error::from_value(c))
            },
        }
    }
}

} // verus!
