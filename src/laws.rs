use vstd::prelude::*;
use crate::error::{find_kind, message_error, position_of, value_error, ErrorView};
use crate::value::{Kind, ValueView};

verus! {

/// `e` with the contexts `added` attached one after another, `added[0]` first.
pub open spec fn layered(e: ErrorView, added: Seq<ValueView>) -> ErrorView
    decreases added.len(),
{
    if added.len() == 0 {
        e
    } else {
        layered(e, added.drop_last()).with_context(added.last())
    }
}

/// A downcast to the kind of the context just attached reaches that context.
pub proof fn context_is_reachable(e: ErrorView, c: ValueView)
    ensures
        e.with_context(c).downcast(c.kind) == Some(c),
{
    assert(e.with_context(c).layers()[0] == c);
}

/// Attaching a context keeps every downcast that worked before working; for
/// any other kind than the context's it reaches the same value as before.
pub proof fn context_keeps_reachable(e: ErrorView, c: ValueView, k: Kind)
    requires
        e.downcast(k) is Some,
    ensures
        e.with_context(c).downcast(k) is Some,
        c.kind != k ==> e.with_context(c).downcast(k) == e.downcast(k),
{
    let s = e.with_context(c).layers();
    assert(s.drop_first() =~= e.layers());
    if c.kind != k {
        assert(position_of(s, k) == 1 + position_of(e.layers(), k));
    }
}

/// A value an error was built from is reachable by downcasting to its kind.
pub proof fn base_is_reachable(e: ErrorView)
    requires
        e.contexts.len() == 0,
    ensures
        e.downcast(e.base.kind) == Some(e.base),
{
}

/// Building an error from a value and downcasting to its kind gives the
/// value back.
pub proof fn value_round_trip(v: ValueView)
    ensures
        value_error(v).downcast(v.kind) == Some(v),
{
    base_is_reachable(value_error(v));
}

proof fn lemma_none_reaches(s: Seq<ValueView>, k: Kind)
    requires
        forall|i: int| 0 <= i < s.len() ==> s[i].kind != k,
    ensures
        find_kind(s, k) is None,
        position_of(s, k) == s.len(),
    decreases s.len(),
{
    if s.len() > 0 {
        lemma_none_reaches(s.drop_first(), k);
    }
}

/// When no layer of an error has kind `k`, a downcast to `k` reaches nothing
/// (and [`crate::Error::downcast`] hands the error back unchanged).
pub proof fn no_match_reaches_nothing(e: ErrorView, k: Kind)
    requires
        forall|i: int| 0 <= i < e.layers().len() ==> e.layers()[i].kind != k,
    ensures
        e.downcast(k) is None,
{
    lemma_none_reaches(e.layers(), k);
}

/// Attaching a context puts it first in the chain, before the whole chain
/// of the error it wraps.
pub proof fn context_extends_chain(e: ErrorView, c: ValueView)
    ensures
        e.with_context(c).chain() == seq![c] + e.chain(),
{
    assert(e.with_context(c).chain() =~= seq![c] + e.chain());
}

/// An error from ad-hoc text with `k` contexts attached has a chain of
/// exactly `k + 1` entries: the contexts, last attached first, then the text;
/// nothing follows the text.
pub proof fn layered_chain(text: Seq<char>, added: Seq<ValueView>)
    ensures
        layered(message_error(text), added).chain().len() == added.len() + 1,
        forall|i: int|
            0 <= i < added.len() ==> #[trigger] layered(message_error(text), added).chain()[i]
                == added[added.len() - 1 - i],
        layered(message_error(text), added).chain().last() == message_error(text).base,
        layered(message_error(text), added).root_cause() == message_error(text).base,
    decreases added.len(),
{
    let e = message_error(text);
    if added.len() == 0 {
        assert(e.chain() =~= seq![e.base]);
    } else {
        let inner = layered(e, added.drop_last());
        layered_chain(text, added.drop_last());
        context_extends_chain(inner, added.last());
        assert forall|i: int| 0 <= i < added.len() implies #[trigger] layered(
            e,
            added,
        ).chain()[i] == added[added.len() - 1 - i] by {
            if i > 0 {
                assert(layered(e, added).chain()[i] == inner.chain()[i - 1]);
                assert(added.drop_last()[added.len() - 1 - i] == added[added.len() - 1 - i]);
            }
        }
    }
}

/// What the plain form and a walk of the chain show is a function of the
/// error's view alone, which reading does not change: two reads give the same
/// text, and two walks the same entries.
pub proof fn reads_are_stable(
    e: ErrorView,
    first: Seq<char>,
    second: Seq<char>,
    walk: Seq<ValueView>,
    again: Seq<ValueView>,
)
    requires
        first == e.message(),
        second == e.message(),
        walk == e.chain(),
        again == e.chain(),
    ensures
        first == second,
        walk == again,
{
}

} // verus!
