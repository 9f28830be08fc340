use vstd::prelude::*;
use crate::value::{Backtrace, ErrorLike, Kind, Value, ValueView};

verus! {

/// The position of the first value of kind `k` in `s`; `s.len()` if none has it.
pub open spec fn position_of(s: Seq<ValueView>, k: Kind) -> nat
    decreases s.len(),
{
    if s.len() == 0 {
        0
    } else if s[0].kind == k {
        0
    } else {
        1 + position_of(s.drop_first(), k)
    }
}

/// The first value of kind `k` in `s`, if any.
pub open spec fn find_kind(s: Seq<ValueView>, k: Kind) -> Option<ValueView> {
    if position_of(s, k) < s.len() {
        Some(s[position_of(s, k) as int])
    } else {
        None
    }
}

/// The mathematical content of an [`Error`].
pub ghost struct ErrorView {
    /// The attached contexts, outermost first.
    pub contexts: Seq<ValueView>,
    /// The value the error was built from.
    pub base: ValueView,
    /// The causes that `base` reports, nearest first.
    pub causes: Seq<ValueView>,
    /// The backtrace text, if one was captured.
    pub backtrace: Option<Seq<char>>,
}

impl ErrorView {
    /// The values a downcast can reach, outermost first: each context, then the base.
    pub open spec fn layers(self) -> Seq<ValueView> {
        self.contexts.push(self.base)
    }

    /// Every entry of the cause chain, outermost first.
    pub open spec fn chain(self) -> Seq<ValueView> {
        self.layers() + self.causes
    }

    /// What the plain form shows: the outermost entry's text.
    pub open spec fn message(self) -> Seq<char> {
        self.layers()[0].text
    }

    /// The innermost entry of the chain.
    pub open spec fn root_cause(self) -> ValueView {
        self.chain().last()
    }

    /// This error with `c` attached outside it.
    pub open spec fn with_context(self, c: ValueView) -> ErrorView {
        ErrorView { contexts: seq![c] + self.contexts, ..self }
    }

    /// What a downcast to kind `k` reaches.
    pub open spec fn downcast(self, k: Kind) -> Option<ValueView> {
        find_kind(self.layers(), k)
    }

    /// This error with the layer at `p` replaced by `v`.
    pub open spec fn update_layer(self, p: int, v: ValueView) -> ErrorView {
        if p < self.contexts.len() {
            ErrorView { contexts: self.contexts.update(p, v), ..self }
        } else {
            ErrorView { base: v, ..self }
        }
    }
}

/// An error built from ad-hoc text.
pub open spec fn message_error(text: Seq<char>) -> ErrorView {
    ErrorView {
        contexts: Seq::empty(),
        base: ValueView { kind: Kind::Message, text },
        causes: Seq::empty(),
        backtrace: None,
    }
}

/// An error built from a value that reports no causes.
pub open spec fn value_error(v: ValueView) -> ErrorView {
    ErrorView { contexts: Seq::empty(), base: v, causes: Seq::empty(), backtrace: None }
}

/// The backtrace kept for an error value: its own if it carries one, else the
/// one captured at construction.
pub open spec fn kept_backtrace(own: Option<Seq<char>>, captured: Option<Seq<char>>) -> Option<
    Seq<char>,
> {
    if own is Some {
        own
    } else {
        captured
    }
}

/// One error: the value it was built from, the causes that value reports,
/// the contexts attached since, and a backtrace if one was captured.
pub struct Error {
    /// Attached contexts, innermost first.
    pub(crate) contexts: Vec<Value>,
    pub(crate) base: Value,
    pub(crate) causes: Vec<Value>,
    pub(crate) backtrace: Backtrace,
}

/// `Result<T, Error>`: the return type of a fallible operation.
pub type Result<T, E = Error> = core::result::Result<T, E>;

impl View for Error {
    type V = ErrorView;

    closed spec fn view(&self) -> ErrorView {
        ErrorView {
            contexts: outer_first(self.contexts@),
            base: self.base@,
            causes: self.causes@.map_values(|v: Value| v@),
            backtrace: self.backtrace@,
        }
    }
}

/// Stored contexts, innermost first, as views outermost first.
spec fn outer_first(s: Seq<Value>) -> Seq<ValueView> {
    Seq::new(s.len(), |j: int| s[s.len() - 1 - j]@)
}

proof fn lemma_outer_first_update(s: Seq<Value>, i: int, x: Value)
    requires
        0 <= i < s.len(),
    ensures
        outer_first(s.update(i, x)) == outer_first(s).update(s.len() - 1 - i, x@),
{
    assert(outer_first(s.update(i, x)) =~= outer_first(s).update(s.len() - 1 - i, x@));
}

/// How the view of `e` is made from its fields.
pub(crate) proof fn lemma_view_parts(e: &Error)
    ensures
        e@.contexts.len() == e.contexts@.len(),
        forall|j: int|
            0 <= j < e.contexts@.len() ==> #[trigger] e@.contexts[j] == e.contexts@[e.contexts@.len()
                - 1 - j]@,
        e@.base == e.base@,
        e@.backtrace == e.backtrace@,
        e@.causes.len() == e.causes@.len(),
        forall|i: int| 0 <= i < e.causes@.len() ==> #[trigger] e@.causes[i] == e.causes@[i]@,
        e@.chain().len() == e.contexts@.len() + 1 + e.causes@.len(),
        forall|j: int| 0 <= j < e.contexts@.len() ==> #[trigger] e@.chain()[j] == e@.contexts[j],
        e@.chain()[e.contexts@.len() as int] == e.base@,
        forall|i: int|
            0 <= i < e.causes@.len() ==> #[trigger] e@.chain()[e.contexts@.len() + 1 + i]
                == e.causes@[i]@,
{
}

proof fn lemma_position_first(s: Seq<ValueView>, k: Kind, i: int)
    requires
        0 <= i < s.len(),
        s[i].kind == k,
        forall|j: int| 0 <= j < i ==> s[j].kind != k,
    ensures
        position_of(s, k) == i,
    decreases i,
{
    if i > 0 {
        lemma_position_first(s.drop_first(), k, i - 1);
    }
}

proof fn lemma_position_none(s: Seq<ValueView>, k: Kind)
    requires
        forall|j: int| 0 <= j < s.len() ==> s[j].kind != k,
    ensures
        position_of(s, k) == s.len(),
    decreases s.len(),
{
    if s.len() > 0 {
        lemma_position_none(s.drop_first(), k);
    }
}

impl Error {
    /// An error whose only entry is the ad-hoc text `text`.
    pub fn msg(text: &str) -> (r: Error)
        ensures
            r@ == message_error(text@),
    {
        Error::from_value(Value::message(text))
    }

    /// An error built from `value`, which reports no causes.
    pub fn from_value(value: Value) -> (r: Error)
        ensures
            r@ == value_error(value@),
    {
        let r = Error {
            contexts: Vec::new(),
            base: value,
            causes: Vec::new(),
            backtrace: Backtrace::Disabled,
        };
        assert(r@.contexts =~= Seq::<ValueView>::empty());
        assert(r@.causes =~= Seq::<ValueView>::empty());
        r
    }

    /// An error built from a concrete error value. It keeps the value's own
    /// backtrace if it carries one, and `captured` otherwise.
    pub fn new(error: ErrorLike, captured: Backtrace) -> (r: Error)
        ensures
            r@ == (ErrorView {
                contexts: Seq::empty(),
                base: error.value@,
                causes: error.causes_view(),
                backtrace: kept_backtrace(error.backtrace@, captured@),
            }),
    {
        let backtrace = match error.backtrace {
            Backtrace::Captured(own) => Backtrace::Captured(own),
            Backtrace::Disabled => captured,
        };
        let r = Error { contexts: Vec::new(), base: error.value, causes: error.causes, backtrace };
        assert(r@.contexts =~= Seq::<ValueView>::empty());
        r
    }

    /// Attaches `context` outside this error. The error it wrapped stays
    /// reachable, by the chain and by downcasting.
    pub fn context(self, context: Value) -> (r: Error)
        ensures
            r@ == self@.with_context(context@),
    {
        let Error { mut contexts, base, causes, backtrace } = self;
        contexts.push(context);
        let r = Error { contexts, base, causes, backtrace };
        assert(r@.contexts =~= self@.with_context(context@).contexts);
        r
    }

    /// Attaches the context that `f` makes.
    pub fn with_context<F: FnOnce() -> Value>(self, f: F) -> (r: Error)
        requires
            f.requires(()),
        ensures
            exists|c: Value| f.ensures((), c) && r@ == self@.with_context(c@),
    {
        let c = f();
        self.context(c)
    }

    /// The backtrace captured for this error, or the marker that none was.
    pub fn backtrace(&self) -> (r: &Backtrace)
        ensures
            r@ == self@.backtrace,
    {
        &self.backtrace
    }

    /// The position among the layers, outermost first, of the first of kind
    /// `kind`, if any has it.
    fn position(&self, kind: Kind) -> (r: Option<usize>)
        ensures
            match r {
                Some(p) => {
                    &&& p as int == position_of(self@.layers(), kind)
                    &&& p <= self.contexts@.len()
                },
                None => position_of(self@.layers(), kind) == self@.layers().len(),
            },
    {
        let n = self.contexts.len();
        let ghost s = self@.layers();
        let mut j: usize = 0;
        while j < n
            invariant
                n == self.contexts@.len(),
                s == self@.layers(),
                j <= n,
                forall|i: int| 0 <= i < j ==> s[i].kind != kind,
            decreases n - j,
        {
            if self.contexts[n - 1 - j].kind == kind {
                proof {
                    lemma_position_first(s, kind, j as int);
                }
                return Some(j);
            }
            j = j + 1;
        }
        if self.base.kind == kind {
            proof {
                lemma_position_first(s, kind, n as int);
            }
            Some(n)
        } else {
            proof {
                lemma_position_none(s, kind);
            }
            None
        }
    }

    /// The outermost context of kind `kind`, or else the base value if it has
    /// that kind; `None` if neither is of it.
    pub fn downcast_ref(&self, kind: Kind) -> (r: Option<&Value>)
        ensures
            match r {
                Some(v) => self@.downcast(kind) == Some(v@),
                None => self@.downcast(kind) is None,
            },
    {
        let n = self.contexts.len();
        match self.position(kind) {
            Some(p) => {
                if p < n {
                    assert(self@.layers()[p as int] == self.contexts@[n - 1 - p]@);
                    Some(&self.contexts[n - 1 - p])
                } else {
                    assert(self@.layers()[p as int] == self.base@);
                    Some(&self.base)
                }
            },
            None => None,
        }
    }

    /// As [`Error::downcast_ref`], for changing the value in place.
    pub fn downcast_mut(&mut self, kind: Kind) -> (r: Option<&mut Value>)
        ensures
            match r {
                Some(v) => {
                    &&& old(self)@.downcast(kind) == Some(v@)
                    &&& final(self)@ == old(self)@.update_layer(
                        position_of(old(self)@.layers(), kind) as int,
                        final(v)@,
                    )
                },
                None => {
                    &&& old(self)@.downcast(kind) is None
                    &&& final(self)@ == old(self)@
                },
            },
    {
        let n = self.contexts.len();
        match self.position(kind) {
            Some(p) => {
                if p < n {
                    assert(self@.layers()[p as int] == self.contexts@[n - 1 - p]@);
                    proof {
                        assert forall|x: Value| #[trigger]
                            outer_first(self.contexts@.update(n - 1 - p, x)) == outer_first(
                                self.contexts@,
                            ).update(p as int, x@) by {
                            lemma_outer_first_update(self.contexts@, n - 1 - p, x);
                        }
                    }
                    Some(&mut self.contexts[n - 1 - p])
                } else {
                    assert(self@.layers()[p as int] == self.base@);
                    Some(&mut self.base)
                }
            },
            None => None,
        }
    }

    /// Takes out the value that [`Error::downcast_ref`] reaches, dropping the
    /// rest; hands the error back unchanged if there is none.
    pub fn downcast(self, kind: Kind) -> (r: Result<Value, Error>)
        ensures
            match r {
                Ok(v) => self@.downcast(kind) == Some(v@),
                Err(e) => self@.downcast(kind) is None && e == self,
            },
    {
        let n = self.contexts.len();
        match self.position(kind) {
            Some(p) => {
                if p < n {
                    assert(self@.layers()[p as int] == self.contexts@[n - 1 - p]@);
                    let Error { mut contexts, .. } = self;
                    Ok(contexts.swap_remove(n - 1 - p))
                } else {
                    assert(self@.layers()[p as int] == self.base@);
                    Ok(self.base)
                }
            },
            None => Err(self),
        }
    }
}

} // verus!
