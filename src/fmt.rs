use vstd::prelude::*;
use vstd::string::*;
use crate::error::{lemma_view_parts, Error, ErrorView};
use crate::text::{
    decimal, indented, pad_left, push_char, push_decimal_padded, push_indented, push_quoted,
    push_str, quoted, trim_end, trimmed_len,
};
use crate::value::ValueView;

verus! {

/// The alternate form of a chain: each entry's text, joined by `": "`.
pub open spec fn joined(s: Seq<ValueView>) -> Seq<char>
    decreases s.len(),
{
    if s.len() == 0 {
        Seq::empty()
    } else if s.len() == 1 {
        s[0].text
    } else {
        joined(s.drop_last()) + ": "@ + s.last().text
    }
}

/// One cause of the diagnostic form on a line of its own: numbered from 0 when
/// there are several, indented alike when there is one.
pub open spec fn cause_line(t: Seq<char>, n: nat, numbered: bool) -> Seq<char> {
    if numbered {
        seq!['\n'] + pad_left(decimal(n), 5) + ": "@ + indented(t, "       "@)
    } else {
        seq!['\n'] + "    "@ + indented(t, "    "@)
    }
}

/// The lines for the causes `s`, in order.
pub open spec fn cause_lines(s: Seq<ValueView>, numbered: bool) -> Seq<char>
    decreases s.len(),
{
    if s.len() == 0 {
        Seq::empty()
    } else {
        cause_lines(s.drop_last(), numbered) + cause_line(
            s.last().text,
            (s.len() - 1) as nat,
            numbered,
        )
    }
}

/// Whether backtrace text already opens with its own heading.
pub open spec fn has_heading(t: Seq<char>) -> bool {
    t.len() >= 16 && t.subrange(0, 16) == "stack backtrace:"@
}

/// The backtrace section of the diagnostic form: absent with no backtrace;
/// else the trimmed text under a capitalised heading.
pub open spec fn backtrace_section(b: Option<Seq<char>>) -> Seq<char> {
    match b {
        None => Seq::empty(),
        Some(t) => if has_heading(t) {
            "\n\n"@ + seq!['S'] + trim_end(t).drop_first()
        } else {
            "\n\n"@ + "Stack backtrace:\n"@ + trim_end(t)
        },
    }
}

/// The diagnostic form of an error.
pub open spec fn diagnostic(e: ErrorView) -> Seq<char> {
    let c = e.chain();
    "Error: "@ + c[0].text + (if c.len() > 1 {
        "\n\nCaused by:"@ + cause_lines(c.drop_first(), c.len() > 2)
    } else {
        Seq::empty()
    }) + backtrace_section(e.backtrace)
}

/// The struct-style form of `contexts` (outermost first) around `base`.
pub open spec fn struct_form(contexts: Seq<ValueView>, base: ValueView) -> Seq<char>
    decreases contexts.len(),
{
    if contexts.len() == 0 {
        quoted(base.text)
    } else {
        "Error {\n    context: "@ + quoted(contexts[0].text) + ",\n    source: "@ + indented(
            struct_form(contexts.drop_first(), base),
            "    "@,
        ) + ",\n}"@
    }
}

fn push_backtrace_section(s: &mut String, t: &str)
    ensures
        final(s)@ == old(s)@ + backtrace_section(Some(t@)),
{
    let heading = "stack backtrace:";
    proof {
        reveal_strlit("stack backtrace:");
    }
    let n = t.unicode_len();
    let mut same = n >= 16;
    if same {
        let mut i: usize = 0;
        while i < 16
            invariant
                n == t@.len(),
                n >= 16,
                heading@ == "stack backtrace:"@,
                heading@.len() == 16,
                i <= 16,
                same == (forall|j: int| 0 <= j < i ==> t@[j] == heading@[j]),
            decreases 16 - i,
        {
            let a = t.get_char(i);
            let b = heading.get_char(i);
            same = same && a == b;
            i = i + 1;
        }
        if same {
            assert(t@.subrange(0, 16) =~= heading@);
        } else {
            assert(!has_heading(t@)) by {
                if has_heading(t@) {
                    assert forall|j: int| 0 <= j < 16 implies t@[j] == heading@[j] by {
                        assert(t@[j] == t@.subrange(0, 16)[j]);
                    }
                }
            }
        }
    }
    let e = trimmed_len(t);
    push_str(s, "\n\n");
    if same {
        assert(t@[0] == heading@[0]);
        push_char(s, 'S');
        push_str(s, t.substring_char(1, e));
        assert(t@.subrange(0, e as int).drop_first() =~= t@.subrange(1, e as int));
    } else {
        push_str(s, "Stack backtrace:\n");
        push_str(s, t.substring_char(0, e));
    }
}

impl Error {
    /// The plain form: the outermost entry's text.
    pub fn message(&self) -> (r: String)
        ensures
            r@ == self@.message(),
    {
        proof {
            lemma_view_parts(self);
        }
        let n = self.contexts.len();
        if n > 0 {
            self.contexts[n - 1].text.clone()
        } else {
            self.base.text.clone()
        }
    }

    /// The alternate form: every entry of the chain, outermost first, joined
    /// by `": "`.
    pub fn message_alternate(&self) -> (r: String)
        ensures
            r@ == joined(self@.chain()),
    {
        let ghost c = self@.chain();
        let mut chain = self.chain();
        let mut out = String::new();
        let mut first = true;
        let ghost mut k: int = 0;
        loop
            invariant
                c == self@.chain(),
                0 <= k <= c.len(),
                chain@ == c.subrange(k, c.len() as int),
                first == (k == 0),
                out@ == joined(c.subrange(0, k)),
            ensures
                chain@.len() == 0,
            decreases chain@.len(),
        {
            let v = match chain.next() {
                Some(v) => v,
                None => break,
            };
            assert(c.subrange(0, k + 1).drop_last() =~= c.subrange(0, k));
            if !first {
                push_str(&mut out, ": ");
            }
            push_str(&mut out, v.text.as_str());
            first = false;
            proof {
                k = k + 1;
            }
        }
        assert(k == c.len());
        assert(c.subrange(0, c.len() as int) =~= c);
        out
    }

    /// The diagnostic form: `"Error: "` and the outermost text; then, if
    /// there are causes, a `"Caused by:"` section with one indented line per
    /// cause, numbered from 0 when there are several; then the backtrace
    /// section, if a backtrace was captured.
    pub fn debug_text(&self) -> (r: String)
        ensures
            r@ == diagnostic(self@),
    {
        proof {
            lemma_view_parts(self);
        }
        let ghost c = self@.chain();
        let ghost rest = c.drop_first();
        let nc = self.contexts.len();
        let nk = self.causes.len();
        let numbered = (nc as u128) + (nk as u128) >= 2;
        let mut chain = self.chain();
        let mut out = String::new();
        push_str(&mut out, "Error: ");
        let first = chain.next();
        match first {
            Some(v) => push_str(&mut out, v.text.as_str()),
            None => {},
        }
        let ghost head = out@;
        assert(head == "Error: "@ + c[0].text);
        assert(chain@ =~= rest.subrange(0, rest.len() as int));
        if (self.contexts.len() as u128) + (self.causes.len() as u128) >= 1 {
            push_str(&mut out, "\n\nCaused by:");
        }
        let ghost start = out@;
        let mut n: u128 = 0;
        assert(rest.subrange(0, 0) =~= Seq::<crate::value::ValueView>::empty());
        loop
            invariant
                rest == c.drop_first(),
                c == self@.chain(),
                c.len() == self.contexts@.len() + 1 + self.causes@.len(),
                self.contexts@.len() <= usize::MAX,
                self.causes@.len() <= usize::MAX,
                n <= rest.len(),
                chain@ == rest.subrange(n as int, rest.len() as int),
                out@ == start + cause_lines(rest.subrange(0, n as int), numbered),
            ensures
                chain@.len() == 0,
            decreases chain@.len(),
        {
            let v = match chain.next() {
                Some(v) => v,
                None => break,
            };
            assert(rest.subrange(0, n + 1).drop_last() =~= rest.subrange(0, n as int));
            assert(v@ == rest[n as int]);
            assert(rest.subrange(0, n + 1).last() == rest[n as int]);
            let ghost before = out@;
            push_char(&mut out, '\n');
            if numbered {
                push_decimal_padded(&mut out, n, 5);
                push_str(&mut out, ": ");
                push_indented(&mut out, v.text.as_str(), "       ");
            } else {
                push_str(&mut out, "    ");
                push_indented(&mut out, v.text.as_str(), "    ");
            }
            assert(out@ =~= before + cause_line(v@.text, n as nat, numbered));
            n = n + 1;
            assert(out@ =~= start + cause_lines(rest.subrange(0, n as int), numbered));
        }
        assert(n == rest.len());
        assert(rest.subrange(0, rest.len() as int) =~= rest);
        assert(numbered == (c.len() > 2));
        let ghost before = out@;
        assert(before == "Error: "@ + c[0].text + (if c.len() > 1 {
            "\n\nCaused by:"@ + cause_lines(c.drop_first(), c.len() > 2)
        } else {
            Seq::empty()
        }));
        match &self.backtrace {
            crate::value::Backtrace::Captured(t) => push_backtrace_section(&mut out, t.as_str()),
            crate::value::Backtrace::Disabled => {},
        }
        assert(out@ =~= diagnostic(self@));
        out
    }

    /// The struct-style form: each context as an `Error { context, source }`
    /// record around the next, the base value quoted innermost.
    pub fn debug_struct(&self) -> (r: String)
        ensures
            r@ == struct_form(self@.contexts, self@.base),
    {
        proof {
            lemma_view_parts(self);
        }
        let ghost cs = self@.contexts;
        let nc = self.contexts.len();
        let mut out = String::new();
        push_quoted(&mut out, self.base.text.as_str());
        assert(cs.subrange(nc as int, nc as int) =~= Seq::<crate::value::ValueView>::empty());
        let mut i: usize = 0;
        while i < nc
            invariant
                nc == self.contexts@.len(),
                cs == self@.contexts,
                cs.len() == nc,
                i <= nc,
                out@ == struct_form(cs.subrange(nc - i, nc as int), self@.base),
            decreases nc - i,
        {
            proof {
                lemma_view_parts(self);
            }
            let mut next = String::new();
            push_str(&mut next, "Error {\n    context: ");
            push_quoted(&mut next, self.contexts[i].text.as_str());
            push_str(&mut next, ",\n    source: ");
            push_indented(&mut next, out.as_str(), "    ");
            push_str(&mut next, ",\n}");
            assert(cs.subrange(nc - i - 1, nc as int).drop_first() =~= cs.subrange(
                nc - i,
                nc as int,
            ));
            assert(cs[nc - i - 1] == self.contexts@[i as int]@);
            out = next;
            i = i + 1;
        }
        assert(cs.subrange(0, nc as int) =~= cs);
        out
    }
}

} // verus!
