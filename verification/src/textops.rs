//! Small text utilities shared by the builder, the layouts and the
//! serializers: character pushes, string equality, decimal rendering,
//! quote escaping, and case folding through the standard library.

use vstd::prelude::*;

verus! {

/// The single uppercase character that the standard library's case mapping
/// puts first for a given character; a function of the character alone.
pub uninterp spec fn upper_first_of(c: char) -> char;

/// The uppercase form of a string under the standard library's case mapping;
/// a function of the characters alone.
pub uninterp spec fn upper_str_of(s: Seq<char>) -> Seq<char>;

/// Relies on String::push: appends one character to the string.
#[verifier::external_body]
pub fn push_char(s: &mut String, c: char)
    ensures
        final(s)@ == old(s)@.push(c),
{
    s.push(c);
}

/// Relies on char::to_uppercase: the iterator it returns is never empty, and
/// its contents depend on the character alone.
#[verifier::external_body]
pub fn upper_char(c: char) -> (r: char)
    ensures
        r == upper_first_of(c),
{
    c.to_uppercase().next().unwrap()
}

/// Relies on str::to_uppercase: the result depends on the characters alone.
#[verifier::external_body]
pub fn upper_str(s: &str) -> (r: String)
    ensures
        r@ == upper_str_of(s@),
{
    s.to_uppercase()
}

/// A fresh one-character string.
pub fn char_to_string(c: char) -> (r: String)
    ensures
        r@ == seq![c],
{
    let mut s = String::new();
    push_char(&mut s, c);
    proof {
        assert(s@ =~= seq![c]);
    }
    s
}

/// A fresh string holding exactly the characters of `v`.
pub fn chars_to_string(v: &Vec<char>) -> (r: String)
    ensures
        r@ == v@,
{
    let mut s = String::new();
    let n = v.len();
    let mut i: usize = 0;
    proof {
        assert(s@ =~= v@.take(0));
    }
    while i < n
        invariant
            n == v@.len(),
            i <= n,
            s@ == v@.take(i as int),
        decreases n - i,
    {
        push_char(&mut s, v[i]);
        i += 1;
        proof {
            assert(s@ =~= v@.take(i as int));
        }
    }
    proof {
        assert(v@.take(n as int) =~= v@);
    }
    s
}

/// The characters of `s`, as a vector.
pub fn chars_of(s: &str) -> (r: Vec<char>)
    ensures
        r@ == s@,
{
    let mut v: Vec<char> = Vec::new();
    let n = s.unicode_len();
    let mut i: usize = 0;
    while i < n
        invariant
            n == s@.len(),
            i <= n,
            v@ == s@.take(i as int),
        decreases n - i,
    {
        v.push(s.get_char(i));
        i += 1;
        proof {
            assert(v@ =~= s@.take(i as int));
        }
    }
    proof {
        assert(s@.take(n as int) =~= s@);
    }
    v
}

/// Character-wise string equality.
pub fn str_eq(a: &str, b: &str) -> (r: bool)
    ensures
        r == (a@ == b@),
{
    let alen = a.unicode_len();
    let blen = b.unicode_len();
    if alen != blen {
        proof {
            assert(a@.len() != b@.len());
        }
        return false;
    }
    let mut i: usize = 0;
    while i < alen
        invariant
            alen == a@.len(),
            alen == b@.len(),
            i <= alen,
            forall|j: int| 0 <= j < i ==> a@[j] == b@[j],
        decreases alen - i,
    {
        if a.get_char(i) != b.get_char(i) {
            proof {
                assert(a@[i as int] != b@[i as int]);
            }
            return false;
        }
        i += 1;
    }
    proof {
        assert(a@ =~= b@);
    }
    true
}

/// The decimal digit character for a value below ten.
pub open spec fn digit_char(d: nat) -> char
    recommends
        d < 10,
{
    if d == 0 { '0' }
    else if d == 1 { '1' }
    else if d == 2 { '2' }
    else if d == 3 { '3' }
    else if d == 4 { '4' }
    else if d == 5 { '5' }
    else if d == 6 { '6' }
    else if d == 7 { '7' }
    else if d == 8 { '8' }
    else { '9' }
}

/// The usual decimal rendering of a natural number, most significant digit
/// first, with no leading zeros except for the number zero itself.
pub open spec fn dec_str(n: nat) -> Seq<char>
    decreases n,
{
    if n < 10 {
        seq![digit_char(n)]
    } else {
        dec_str(n / 10) + seq![digit_char(n % 10)]
    }
}

/// Appends the decimal rendering of `n` to `out`.
pub fn append_usize(out: &mut String, n: usize)
    ensures
        final(out)@ == old(out)@ + dec_str(n as nat),
    decreases n,
{
    if n < 10 {
        let d = digit_of(n);
        push_char(out, d);
        proof {
            assert(out@ =~= old(out)@ + dec_str(n as nat));
        }
    } else {
        append_usize(out, n / 10);
        let d = digit_of(n % 10);
        push_char(out, d);
        proof {
            assert(out@ =~= old(out)@ + dec_str(n as nat));
        }
    }
}

/// A run of `n` space characters.
pub open spec fn spaces(n: nat) -> Seq<char> {
    Seq::new(n, |i: int| ' ')
}

/// The decimal rendering of `n`, left-padded with spaces to at least
/// `width` characters.
pub open spec fn dec_str_pad(n: nat, width: nat) -> Seq<char> {
    if dec_str(n).len() >= width {
        dec_str(n)
    } else {
        spaces((width - dec_str(n).len()) as nat) + dec_str(n)
    }
}

/// Appends `n` in decimal, left-padded with spaces to at least `width`
/// characters, to `out`.
pub fn append_usize_pad(out: &mut String, n: usize, width: usize)
    ensures
        final(out)@ == old(out)@ + dec_str_pad(n as nat, width as nat),
{
    let mut digits = String::new();
    append_usize(&mut digits, n);
    let dlen = digits.as_str().unicode_len();
    if dlen < width {
        let mut pad = width - dlen;
        proof {
            assert(out@ =~= old(out)@ + spaces(((width - dlen) - (pad as int)) as nat));
        }
        while pad > 0
            invariant
                pad <= width - dlen,
                out@ == old(out)@ + spaces(((width - dlen) - (pad as int)) as nat),
            decreases pad,
        {
            push_char(out, ' ');
            pad -= 1;
            proof {
                let k = (width - dlen) - (pad as int);
                assert(spaces(k as nat) =~= spaces((k - 1) as nat) + seq![' ']);
                assert(out@ =~= old(out)@ + spaces(k as nat));
            }
        }
    }
    out.append(digits.as_str());
    proof {
        assert(out@ =~= old(out)@ + dec_str_pad(n as nat, width as nat));
    }
}

fn digit_of(n: usize) -> (r: char)
    requires
        n < 10,
    ensures
        r == digit_char(n as nat),
{
    if n == 0 { '0' }
    else if n == 1 { '1' }
    else if n == 2 { '2' }
    else if n == 3 { '3' }
    else if n == 4 { '4' }
    else if n == 5 { '5' }
    else if n == 6 { '6' }
    else if n == 7 { '7' }
    else if n == 8 { '8' }
    else { '9' }
}

/// A copy of `s` where every double-quote character is preceded by a
/// backslash.
pub open spec fn escape_quotes(s: Seq<char>) -> Seq<char>
    decreases s.len(),
{
    if s.len() == 0 {
        Seq::empty()
    } else {
        escape_quotes(s.drop_last()) + (if s.last() == '"' { seq!['\\', '"'] } else {
            seq![s.last()]
        })
    }
}

/// Appends `s` to `out`, escaping every double quote with a backslash.
pub fn append_escaped(out: &mut String, s: &str)
    ensures
        final(out)@ == old(out)@ + escape_quotes(s@),
{
    let len = s.unicode_len();
    let mut i: usize = 0;
    proof {
        assert(s@.take(0) =~= Seq::<char>::empty());
        assert(out@ =~= old(out)@ + escape_quotes(s@.take(0)));
    }
    while i < len
        invariant
            len == s@.len(),
            i <= len,
            out@ == old(out)@ + escape_quotes(s@.take(i as int)),
        decreases len - i,
    {
        let c = s.get_char(i);
        if c == '"' {
            push_char(out, '\\');
            push_char(out, '"');
        } else {
            push_char(out, c);
        }
        i += 1;
        proof {
            assert(s@.take(i as int).drop_last() =~= s@.take(i - 1));
            assert(s@.take(i as int).last() == s@[i - 1]);
            assert(out@ =~= old(out)@ + escape_quotes(s@.take(i as int)));
        }
    }
    proof {
        assert(s@.take(len as int) =~= s@);
    }
}

} // verus!
