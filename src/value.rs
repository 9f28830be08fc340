use vstd::prelude::*;

verus! {

/// What a value is, for downcasting: ad-hoc text, or a kind chosen by the caller.
#[derive(PartialEq, Eq, Structural, Clone, Copy, Debug)]
pub enum Kind {
    Message,
    Custom(u64),
}

/// A displayable value tagged with its kind: an error value or a context.
#[derive(Debug)]
pub struct Value {
    pub kind: Kind,
    pub text: String,
}

/// The mathematical content of a [`Value`].
pub ghost struct ValueView {
    pub kind: Kind,
    pub text: Seq<char>,
}

impl View for Value {
    type V = ValueView;

    open spec fn view(&self) -> ValueView {
        ValueView { kind: self.kind, text: self.text@ }
    }
}

impl Value {
    /// Ad-hoc text.
    pub fn message(text: &str) -> (r: Value)
        ensures
            r@ == (ValueView { kind: Kind::Message, text: text@ }),
    {
        Value { kind: Kind::Message, text: String::from_str(text) }
    }

    /// A value of the given kind that displays as `text`.
    pub fn new(kind: Kind, text: &str) -> (r: Value)
        ensures
            r@ == (ValueView { kind, text: text@ }),
    {
        Value { kind, text: String::from_str(text) }
    }
}

/// A backtrace: captured text, or the marker that none was captured.
#[derive(Debug)]
pub enum Backtrace {
    Disabled,
    Captured(String),
}

impl View for Backtrace {
    type V = Option<Seq<char>>;

    open spec fn view(&self) -> Option<Seq<char>> {
        match self {
            Backtrace::Disabled => None,
            Backtrace::Captured(s) => Some(s@),
        }
    }
}

/// A concrete error value: what it is, the causes it reports (nearest first),
/// and the backtrace it already carries, if any.
#[derive(Debug)]
pub struct ErrorLike {
    pub value: Value,
    pub causes: Vec<Value>,
    pub backtrace: Backtrace,
}

impl ErrorLike {
    /// The reported causes as views, nearest first.
    pub open spec fn causes_view(&self) -> Seq<ValueView> {
        self.causes@.map_values(|v: Value| v@)
    }
}

} // verus!
