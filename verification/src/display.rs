use vstd::prelude::*;
use vstd::string::StringExecFns;

verus! {

/// `String::push`: appends `c` to `s`.
#[verifier::external_body]
pub(crate) fn string_push(s: &mut String, c: char)
    ensures
        final(s)@ == old(s)@.push(c),
{
    s.push(c);
}

/// The char of the decimal digit `d`.
pub open spec fn digit_char(d: nat) -> char {
    if d == 0 { '0' }
    else if d == 1 { '1' }
    else if d == 2 { '2' }
    else if d == 3 { '3' }
    else if d == 4 { '4' }
    else if d == 5 { '5' }
    else if d == 6 { '6' }
    else if d == 7 { '7' }
    else if d == 8 { '8' }
    else { '9' }
}

/// The decimal digits of `n`, most significant first, with no leading zero.
pub open spec fn decimal(n: nat) -> Seq<char>
    decreases n,
{
    if n < 10 {
        seq![digit_char(n)]
    } else {
        decimal(n / 10).push(digit_char(n % 10))
    }
}

fn digit(d: u64) -> (c: char)
    requires
        d < 10,
    ensures
        c == digit_char(d as nat),
{
    match d {
        0 => '0',
        1 => '1',
        2 => '2',
        3 => '3',
        4 => '4',
        5 => '5',
        6 => '6',
        7 => '7',
        8 => '8',
        _ => '9',
    }
}

/// Appends the decimal digits of `n` to `s`.
pub fn push_decimal(s: &mut String, n: u64)
    ensures
        final(s)@ == old(s)@ + decimal(n as nat),
    decreases n,
{
    if n >= 10 {
        push_decimal(s, n / 10);
    }
    string_push(s, digit(n % 10));
    proof {
        if n < 10 {
            assert(old(s)@.push(digit_char(n as nat)) =~= old(s)@ + seq![digit_char(n as nat)]);
        } else {
            assert(old(s)@ + decimal((n / 10) as nat) + seq![digit_char((n % 10) as nat)] =~= old(
                s,
            )@ + decimal((n / 10) as nat).push(digit_char((n % 10) as nat)));
        }
    }
}

/// What follows the last `:` of `s`, or all of `s` if it has none.
pub open spec fn after_last_colon(s: Seq<char>) -> Seq<char>
    decreases s.len(),
{
    if s.len() == 0 {
        s
    } else if s.last() == ':' {
        Seq::empty()
    } else {
        after_last_colon(s.drop_last()).push(s.last())
    }
}

/// Appends to `out` what follows the last `:` of `name`.
pub fn push_after_last_colon(out: &mut String, name: &str)
    ensures
        final(out)@ == old(out)@ + after_last_colon(name@),
{
    let chars = crate::text::str_chars(name);
    let mut start = chars.len();
    proof {
        assert(chars@.take(chars@.len() as int) =~= chars@);
        assert(chars@.skip(chars@.len() as int) =~= Seq::<char>::empty());
        assert(after_last_colon(chars@) + Seq::<char>::empty() =~= after_last_colon(chars@));
    }
    while start > 0 && chars[start - 1] != ':'
        invariant
            start <= chars@.len(),
            after_last_colon(chars@) == after_last_colon(chars@.take(start as int)) + chars@.skip(
                start as int,
            ),
        decreases start,
    {
        proof {
            let t = chars@.take(start as int);
            assert(t.drop_last() =~= chars@.take(start - 1));
            assert(chars@.skip(start - 1) =~= seq![t.last()] + chars@.skip(start as int));
            assert(after_last_colon(t) == after_last_colon(t.drop_last()).push(t.last()));
            assert(after_last_colon(t.drop_last()).push(t.last()) + chars@.skip(start as int)
                =~= after_last_colon(t.drop_last()) + chars@.skip(start - 1));
        }
        start = start - 1;
    }
    proof {
        if start > 0 {
            let t = chars@.take(start as int);
            assert(t.last() == ':');
            assert(after_last_colon(t) =~= Seq::<char>::empty());
        } else {
            assert(chars@.take(0) =~= Seq::<char>::empty());
        }
        assert(Seq::<char>::empty() + chars@.skip(start as int) =~= chars@.skip(start as int));
    }
    let ghost before = out@;
    let mut i = start;
    while i < chars.len()
        invariant
            start <= i <= chars@.len(),
            out@ == before + chars@.subrange(start as int, i as int),
        decreases chars@.len() - i,
    {
        string_push(out, chars[i]);
        proof {
            assert(chars@.subrange(start as int, i + 1) =~= chars@.subrange(start as int, i as int).push(chars@[i as int]));
        }
        i = i + 1;
    }
    proof {
        assert(chars@.subrange(start as int, chars@.len() as int) =~= chars@.skip(start as int));
        assert(before + chars@.skip(start as int) =~= before + after_last_colon(name@));
    }
}

} // verus!

verus! {

/// Text of the form `<a>: <b>`: a map entry as `Debug` shows it.
pub open spec fn is_entry_text(t: Seq<char>) -> bool {
    exists|a: Seq<char>, b: Seq<char>| t == a + seq![':', ' '] + b
}

/// The texts `pieces`, in order, with `, ` between each two.
pub open spec fn join_comma(pieces: Seq<Seq<char>>) -> Seq<char>
    decreases pieces.len(),
{
    if pieces.len() == 0 {
        Seq::empty()
    } else if pieces.len() == 1 {
        pieces[0]
    } else {
        join_comma(pieces.drop_last()) + seq![',', ' '] + pieces.last()
    }
}

/// `format!("{:?}: {:?}", key, value)`: a key and its value as a map's `Debug` shows them,
/// the key's `Debug` text, `: `, then the value's. What those two texts are is left unsaid:
/// `Debug` is the key's and value's own.
#[verifier::external_body]
pub(crate) fn debug_entry<K: core::fmt::Debug, V: core::fmt::Debug>(key: &K, value: &V) -> (r: String)
    ensures
        is_entry_text(r@),
{
    format!("{:?}: {:?}", key, value)
}

} // verus!
