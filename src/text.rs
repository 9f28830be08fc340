use vstd::prelude::*;
use vstd::string::*;

verus! {

/// The text that `f` gives for each character of `t`, one after another.
pub open spec fn expand(t: Seq<char>, f: spec_fn(char) -> Seq<char>) -> Seq<char>
    decreases t.len(),
{
    if t.len() == 0 {
        Seq::empty()
    } else {
        expand(t.drop_last(), f) + f(t.last())
    }
}

/// `t` with `pad` written after each line break.
pub open spec fn indented(t: Seq<char>, pad: Seq<char>) -> Seq<char> {
    expand(t, |c: char| if c == '\n' { seq!['\n'] + pad } else { seq![c] })
}

/// How one character is written between quotes: quote, backslash, line feed,
/// carriage return, tab and NUL get a backslash escape, any other character
/// stands as it is.
pub open spec fn escape_char(c: char) -> Seq<char> {
    if c == '"' {
        seq!['\\', '"']
    } else if c == '\\' {
        seq!['\\', '\\']
    } else if c == '\n' {
        seq!['\\', 'n']
    } else if c == '\r' {
        seq!['\\', 'r']
    } else if c == '\t' {
        seq!['\\', 't']
    } else if c == '\0' {
        seq!['\\', '0']
    } else {
        seq![c]
    }
}

/// `t` between double quotes, escaped.
pub open spec fn quoted(t: Seq<char>) -> Seq<char> {
    seq!['"'] + expand(t, |c: char| escape_char(c)) + seq!['"']
}

/// The decimal digit for `d < 10`.
pub open spec fn digit(d: nat) -> char {
    if d == 0 {
        '0'
    } else if d == 1 {
        '1'
    } else if d == 2 {
        '2'
    } else if d == 3 {
        '3'
    } else if d == 4 {
        '4'
    } else if d == 5 {
        '5'
    } else if d == 6 {
        '6'
    } else if d == 7 {
        '7'
    } else if d == 8 {
        '8'
    } else {
        '9'
    }
}

/// `n` in decimal, without leading zeros.
pub open spec fn decimal(n: nat) -> Seq<char>
    decreases n,
{
    if n < 10 {
        seq![digit(n)]
    } else {
        decimal(n / 10).push(digit(n % 10))
    }
}

/// `n` spaces.
pub open spec fn spaces(n: nat) -> Seq<char> {
    Seq::new(n, |i: int| ' ')
}

/// `t` right-aligned in a field of `width` characters.
pub open spec fn pad_left(t: Seq<char>, width: nat) -> Seq<char> {
    if t.len() < width {
        spaces((width - t.len()) as nat) + t
    } else {
        t
    }
}

/// The characters that Unicode counts as white space.
pub open spec fn is_white(c: char) -> bool {
    ||| c == ' '
    ||| '\t' <= c <= '\r'
    ||| c == '\u{85}'
    ||| c == '\u{A0}'
    ||| c == '\u{1680}'
    ||| '\u{2000}' <= c <= '\u{200A}'
    ||| c == '\u{2028}'
    ||| c == '\u{2029}'
    ||| c == '\u{202F}'
    ||| c == '\u{205F}'
    ||| c == '\u{3000}'
}

/// `t` without the white space at its end.
pub open spec fn trim_end(t: Seq<char>) -> Seq<char>
    decreases t.len(),
{
    if t.len() > 0 && is_white(t.last()) {
        trim_end(t.drop_last())
    } else {
        t
    }
}

proof fn lemma_expand_step(t: Seq<char>, i: int, f: spec_fn(char) -> Seq<char>)
    requires
        0 <= i < t.len(),
    ensures
        expand(t.subrange(0, i + 1), f) == expand(t.subrange(0, i), f) + f(t[i]),
{
    assert(t.subrange(0, i + 1).drop_last() =~= t.subrange(0, i));
}

/// Relies on std's `String::push`: appends one character.
#[verifier::external_body]
pub(crate) fn push_char(s: &mut String, c: char)
    ensures
        final(s)@ == old(s)@.push(c),
{
    s.push(c)
}

/// Appends `t` to `s`.
pub(crate) fn push_str(s: &mut String, t: &str)
    ensures
        final(s)@ == old(s)@ + t@,
{
    s.append(t)
}

/// Appends `t`, with `pad` after each line break.
pub(crate) fn push_indented(s: &mut String, t: &str, pad: &str)
    ensures
        final(s)@ == old(s)@ + indented(t@, pad@),
{
    let n = t.unicode_len();
    let ghost f = |c: char| if c == '\n' { seq!['\n'] + pad@ } else { seq![c] };
    let mut i: usize = 0;
    assert(t@.subrange(0, 0) =~= Seq::<char>::empty());
    while i < n
        invariant
            n == t@.len(),
            i <= n,
            s@ == old(s)@ + expand(t@.subrange(0, i as int), f),
            f == (|c: char| if c == '\n' { seq!['\n'] + pad@ } else { seq![c] }),
        decreases n - i,
    {
        let c = t.get_char(i);
        proof {
            lemma_expand_step(t@, i as int, f);
        }
        if c == '\n' {
            push_char(s, '\n');
            push_str(s, pad);
        } else {
            push_char(s, c);
        }
        i = i + 1;
        assert(s@ =~= old(s)@ + expand(t@.subrange(0, i as int), f));
    }
    assert(t@.subrange(0, n as int) =~= t@);
}

/// Appends `t` between double quotes, escaped.
pub(crate) fn push_quoted(s: &mut String, t: &str)
    ensures
        final(s)@ == old(s)@ + quoted(t@),
{
    let n = t.unicode_len();
    let ghost f = |c: char| escape_char(c);
    let ghost start = s@;
    push_char(s, '"');
    let mut i: usize = 0;
    assert(t@.subrange(0, 0) =~= Seq::<char>::empty());
    while i < n
        invariant
            n == t@.len(),
            i <= n,
            s@ == start + seq!['"'] + expand(t@.subrange(0, i as int), f),
            f == (|c: char| escape_char(c)),
        decreases n - i,
    {
        let c = t.get_char(i);
        proof {
            lemma_expand_step(t@, i as int, f);
        }
        if c == '"' {
            push_char(s, '\\');
            push_char(s, '"');
        } else if c == '\\' {
            push_char(s, '\\');
            push_char(s, '\\');
        } else if c == '\n' {
            push_char(s, '\\');
            push_char(s, 'n');
        } else if c == '\r' {
            push_char(s, '\\');
            push_char(s, 'r');
        } else if c == '\t' {
            push_char(s, '\\');
            push_char(s, 't');
        } else if c == '\0' {
            push_char(s, '\\');
            push_char(s, '0');
        } else {
            push_char(s, c);
        }
        i = i + 1;
        assert(s@ =~= start + seq!['"'] + expand(t@.subrange(0, i as int), f));
    }
    assert(t@.subrange(0, n as int) =~= t@);
    push_char(s, '"');
    assert(s@ =~= start + quoted(t@));
}

fn digit_char(d: u128) -> (c: char)
    requires
        d < 10,
    ensures
        c == digit(d as nat),
{
    if d == 0 {
        '0'
    } else if d == 1 {
        '1'
    } else if d == 2 {
        '2'
    } else if d == 3 {
        '3'
    } else if d == 4 {
        '4'
    } else if d == 5 {
        '5'
    } else if d == 6 {
        '6'
    } else if d == 7 {
        '7'
    } else if d == 8 {
        '8'
    } else {
        '9'
    }
}

/// Appends `n` in decimal.
pub(crate) fn push_decimal(s: &mut String, n: u128)
    ensures
        final(s)@ == old(s)@ + decimal(n as nat),
    decreases n,
{
    if n >= 10 {
        push_decimal(s, n / 10);
    }
    let c = digit_char(n % 10);
    push_char(s, c);
    assert(s@ =~= old(s)@ + decimal(n as nat));
}

/// Appends `n` in decimal, right-aligned in a field of `width` characters.
pub(crate) fn push_decimal_padded(s: &mut String, n: u128, width: usize)
    ensures
        final(s)@ == old(s)@ + pad_left(decimal(n as nat), width as nat),
{
    let mut d = String::new();
    push_decimal(&mut d, n);
    assert(d@ =~= decimal(n as nat));
    let len = d.as_str().unicode_len();
    let ghost start = s@;
    if len < width {
        let mut k: usize = 0;
        while k < width - len
            invariant
                len < width,
                k <= width - len,
                s@ == start + spaces(k as nat),
            decreases width - len - k,
        {
            push_char(s, ' ');
            k = k + 1;
            assert(s@ =~= start + spaces(k as nat));
        }
    }
    push_str(s, d.as_str());
    assert(s@ =~= start + pad_left(decimal(n as nat), width as nat));
}

fn is_white_char(c: char) -> (r: bool)
    ensures
        r == is_white(c),
{
    c == ' ' || ('\t' <= c && c <= '\r') || c == '\u{85}' || c == '\u{A0}' || c == '\u{1680}'
        || ('\u{2000}' <= c && c <= '\u{200A}') || c == '\u{2028}' || c == '\u{2029}' || c
        == '\u{202F}' || c == '\u{205F}' || c == '\u{3000}'
}

/// The number of characters of `t` that are left once the white space at its
/// end is taken off.
pub(crate) fn trimmed_len(t: &str) -> (r: usize)
    ensures
        r <= t@.len(),
        t@.subrange(0, r as int) == trim_end(t@),
        t@.len() > 0 && !is_white(t@[0]) ==> r > 0,
{
    let mut e = t.unicode_len();
    assert(t@.subrange(0, e as int) =~= t@);
    while e > 0 && is_white_char(t.get_char(e - 1))
        invariant
            e <= t@.len(),
            t@.len() > 0 && !is_white(t@[0]) ==> e > 0,
            trim_end(t@.subrange(0, e as int)) == trim_end(t@),
        decreases e,
    {
        assert(t@.subrange(0, e as int).drop_last() =~= t@.subrange(0, e - 1));
        e = e - 1;
    }
    e
}

} // verus!
