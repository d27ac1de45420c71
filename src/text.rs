use vstd::prelude::*;
use vstd::std_specs::iter::IteratorSpec;
use vstd::string::*;

verus! {

/// Relies on `String::push`: the character is appended at the end.
#[verifier::external_body]
pub(crate) fn push_char(s: &mut String, c: char)
    ensures
        final(s)@ == old(s)@.push(c),
{
    s.push(c);
}

/// The characters of `s`, in order.
pub(crate) fn chars_of(s: &str) -> (r: Vec<char>)
    ensures
        r@ == s@,
{
    broadcast use vstd::string::next_postcondition;

    let mut it = s.chars();
    let mut r: Vec<char> = Vec::new();
    loop
        invariant_except_break
            it.obeys_prophetic_iter_laws(),
            it.decrease() is Some,
            r@ + it.remaining() == s@,
        ensures
            r@ == s@,
        decreases it.decrease()->0,
    {
        let ghost before = it.remaining();
        match it.next() {
            Some(c) => {
                r.push(c);
                assert(r@ + it.remaining() =~= s@);
            },
            None => {
                assert(before.len() == 0);
                assert(r@ =~= s@);
                break;
            },
        }
    }
    r
}

/// Appends the text `t` to `s`.
pub(crate) fn push_text(s: &mut String, t: &str)
    ensures
        final(s)@ == old(s)@ + t@,
{
    s.append(t);
}

/// Appends the text of `t` to `s`.
pub(crate) fn push_string(s: &mut String, t: &String)
    ensures
        final(s)@ == old(s)@ + t@,
{
    s.append(t.as_str());
}

/// The decimal digit character for `d < 10`.
pub open spec fn digit_char(d: nat) -> char {
    if d == 0 { '0' }
    else if d == 1 { '1' }
    else if d == 2 { '2' }
    else if d == 3 { '3' }
    else if d == 4 { '4' }
    else if d == 5 { '5' }
    else if d == 6 { '6' }
    else if d == 7 { '7' }
    else if d == 8 { '8' }
    else { '9' }
}

/// Decimal digits of a natural number, most significant first, no leading zeros.
pub open spec fn nat_digits(n: nat) -> Seq<char>
    decreases n,
{
    if n < 10 {
        seq![digit_char(n)]
    } else {
        nat_digits(n / 10).push(digit_char(n % 10))
    }
}

/// Decimal text of an integer, with a leading `-` when negative.
pub open spec fn int_text(n: int) -> Seq<char> {
    if n < 0 {
        seq!['-'] + nat_digits((-n) as nat)
    } else {
        nat_digits(n as nat)
    }
}

fn digit_of(d: u64) -> (c: char)
    requires
        d < 10,
    ensures
        c == digit_char(d as nat),
{
    if d == 0 { '0' }
    else if d == 1 { '1' }
    else if d == 2 { '2' }
    else if d == 3 { '3' }
    else if d == 4 { '4' }
    else if d == 5 { '5' }
    else if d == 6 { '6' }
    else if d == 7 { '7' }
    else if d == 8 { '8' }
    else { '9' }
}

fn push_nat_digits(s: &mut String, n: u64)
    ensures
        final(s)@ == old(s)@ + nat_digits(n as nat),
    decreases n,
{
    if n < 10 {
        push_char(s, digit_of(n));
        assert(final(s)@ =~= old(s)@ + nat_digits(n as nat));
    } else {
        push_nat_digits(s, n / 10);
        push_char(s, digit_of(n % 10));
        assert(final(s)@ =~= old(s)@ + nat_digits(n as nat));
    }
}

/// Appends the decimal digits of `n` to `s`.
pub(crate) fn push_usize(s: &mut String, n: usize)
    ensures
        final(s)@ == old(s)@ + nat_digits(n as nat),
    decreases n,
{
    if n < 10 {
        push_char(s, digit_of(n as u64));
        assert(final(s)@ =~= old(s)@ + nat_digits(n as nat));
    } else {
        push_usize(s, n / 10);
        push_char(s, digit_of((n % 10) as u64));
        assert(final(s)@ =~= old(s)@ + nat_digits(n as nat));
    }
}

/// Appends the decimal text of `n` to `s`.
pub(crate) fn push_decimal(s: &mut String, n: i64)
    ensures
        final(s)@ == old(s)@ + int_text(n as int),
{
    if n < 0 {
        push_char(s, '-');
        let m: u64 = if n == i64::MIN { 9223372036854775808u64 } else { (-n) as u64 };
        push_nat_digits(s, m);
        assert(final(s)@ =~= old(s)@ + int_text(n as int));
    } else {
        push_nat_digits(s, n as u64);
    }
}

/// The decimal text of a number, as the generated code writes integer literals.
pub fn decimal_text(n: i64) -> (r: String)
    ensures
        r@ == int_text(n as int),
{
    let mut r = String::new();
    push_decimal(&mut r, n);
    assert(r@ =~= int_text(n as int));
    r
}

/// The part of a line before its first `//`.
pub open spec fn before_comment(line: Seq<char>) -> Seq<char>
    decreases line.len(),
{
    if line.len() == 0 {
        line
    } else if line.len() >= 2 && line[0] == '/' && line[1] == '/' {
        Seq::empty()
    } else {
        seq![line[0]] + before_comment(line.drop_first())
    }
}

/// Source text with `//` comments removed; `in_comment` says whether a comment is open.
/// Every newline is kept, and a newline closes an open comment.
pub open spec fn without_comments(src: Seq<char>, in_comment: bool) -> Seq<char>
    decreases src.len(),
{
    if src.len() == 0 {
        src
    } else if src[0] == '\n' {
        seq!['\n'] + without_comments(src.drop_first(), false)
    } else if in_comment || (src.len() >= 2 && src[1] == '/' && src[0] == '/') {
        without_comments(src.drop_first(), true)
    } else {
        seq![src[0]] + without_comments(src.drop_first(), false)
    }
}

/// Removes `//` comments from source text, keeping every newline.
pub fn strip_comments(src: &str) -> (r: String)
    ensures
        r@ == without_comments(src@, false),
{
    let v = chars_of(src);
    let mut r = String::new();
    let mut in_comment = false;
    let mut i: usize = 0;
    assert(v@.subrange(0, v@.len() as int) =~= v@);
    while i < v.len()
        invariant
            v@ == src@,
            i <= v@.len(),
            r@ + without_comments(v@.subrange(i as int, v@.len() as int), in_comment)
                == without_comments(v@, false),
        decreases v@.len() - i,
    {
        let ghost rest = v@.subrange(i as int, v@.len() as int);
        let ghost r0 = r@;
        let c = v[i];
        proof {
            assert(v@.subrange(i as int + 1, v@.len() as int) =~= rest.drop_first());
            assert(rest[0] == c);
        }
        if c == '\n' {
            push_char(&mut r, c);
            in_comment = false;
            assert(r@ + without_comments(rest.drop_first(), false)
                =~= r0 + (seq![c] + without_comments(rest.drop_first(), false)));
        } else if in_comment || (i + 1 < v.len() && v[i + 1] == '/' && c == '/') {
            proof {
                if !in_comment {
                    assert(rest[1] == v@[i + 1]);
                }
            }
            in_comment = true;
        } else {
            proof {
                if i + 1 < v.len() {
                    assert(rest[1] == v@[i + 1]);
                }
            }
            push_char(&mut r, c);
            assert(r@ + without_comments(rest.drop_first(), false)
                =~= r0 + (seq![c] + without_comments(rest.drop_first(), false)));
        }
        i = i + 1;
    }
    proof {
        assert(v@.subrange(i as int, v@.len() as int) =~= Seq::<char>::empty());
        assert(r@ + Seq::<char>::empty() =~= r@);
        assert(v@.subrange(0, v@.len() as int) =~= v@);
    }
    r
}

} // verus!
