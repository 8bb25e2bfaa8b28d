//! Reading a string from its front, one character at a time.

use vstd::prelude::*;
use vstd::string::StrSliceExecFns;

verus! {

/// The first character of a string and what follows it.
pub fn split_first(s: &str) -> (r: Option<(char, &str)>)
    ensures
        r.is_some() <==> s@.len() > 0,
        r.is_some() ==> r.unwrap().0 == s@[0] && r.unwrap().1@ == s@.skip(1),
{
    let n = s.unicode_len();
    if n == 0 {
        None
    } else {
        let c = s.get_char(0);
        let rest = s.substring_char(1, n);
        Some((c, rest))
    }
}

/// Drops the character `c` from the front of a string that starts with it.
pub fn skip_char(c: char, s: &str) -> (r: Option<&str>)
    ensures
        r.is_some() <==> (s@.len() > 0 && s@[0] == c),
        r.is_some() ==> r.unwrap()@ == s@.skip(1),
{
    match split_first(s) {
        None => None,
        Some((d, rest)) => if c == d {
            Some(rest)
        } else {
            None
        },
    }
}

/// `String::push` of std: the string with one more character at its end.
pub assume_specification[ String::push ](s: &mut String, c: char)
    ensures
        final(s)@ == old(s)@.push(c),
;

/// Whether a reader that made `r` of the string `s` did what `want`
/// says: it read the same value and left what follows the characters it
/// took, or it read nothing where nothing is to be read.
pub open spec fn reads<T>(r: Option<(T, &str)>, s: &str, want: Option<(T, int)>) -> bool {
    match (r, want) {
        (None, None) => true,
        (Some((v, rest)), Some((w, n))) => v == w && rest@ == s@.skip(n),
        _ => false,
    }
}

/// Drops one of the characters of `any` from the front of a string that
/// starts with one.
pub fn skip_any_char<'a>(any: &[char], s: &'a str) -> (r: Option<(char, &'a str)>)
    ensures
        r.is_some() <==> (s@.len() > 0 && any@.contains(s@[0])),
        r.is_some() ==> r.unwrap().0 == s@[0] && r.unwrap().1@ == s@.skip(1),
{
    match split_first(s) {
        None => None,
        Some((c, rest)) => {
            let mut n: usize = 0;
            while n < any.len()
                invariant
                    n <= any@.len(),
                    s@.len() > 0,
                    c == s@[0],
                    rest@ == s@.skip(1),
                    forall|i: int| 0 <= i < n ==> any@[i] != c,
                decreases any@.len() - n,
            {
                if any[n] == c {
                    return Some((c, rest));
                }
                n += 1;
            }
            None
        },
    }
}

/// The character of a decimal digit.
pub open spec fn digit_char(d: int) -> char {
    if d == 0 {
        '0'
    } else if d == 1 {
        '1'
    } else if d == 2 {
        '2'
    } else if d == 3 {
        '3'
    } else if d == 4 {
        '4'
    } else if d == 5 {
        '5'
    } else if d == 6 {
        '6'
    } else if d == 7 {
        '7'
    } else if d == 8 {
        '8'
    } else {
        '9'
    }
}

/// A number in decimal digits.
pub open spec fn decimal(n: nat) -> Seq<char>
    decreases n,
{
    if n < 10 {
        seq![digit_char(n as int)]
    } else {
        decimal(n / 10).push(digit_char((n % 10) as int))
    }
}

/// The character of a decimal digit.
pub fn digit(d: u64) -> (r: char)
    requires
        d < 10,
    ensures
        r == digit_char(d as int),
{
    match d {
        0 => '0',
        1 => '1',
        2 => '2',
        3 => '3',
        4 => '4',
        5 => '5',
        6 => '6',
        7 => '7',
        8 => '8',
        _ => '9',
    }
}

/// Writes a number in decimal digits at the end of a string.
pub fn write_decimal(n: u64, out: &mut String)
    ensures
        final(out)@ == old(out)@ + decimal(n as nat),
    decreases n,
{
    if n >= 10 {
        write_decimal(n / 10, out);
    }
    out.push(digit(n % 10));
    assert(out@ =~= old(out)@ + decimal(n as nat));
}

/// Fills a string up with spaces at its end until it has `width`
/// characters.
pub open spec fn padded(s: Seq<char>, width: int) -> Seq<char>
    decreases width - s.len(),
{
    if s.len() >= width {
        s
    } else {
        padded(s.push(' '), width)
    }
}

/// Fills a string up with spaces at its end until it has `width`
/// characters.
pub fn pad(s: String, width: usize) -> (r: String)
    ensures
        r@ == padded(s@, width as int),
{
    let mut res = s;
    let mut n = res.as_str().unicode_len();
    while n < width
        invariant
            n == res@.len(),
            padded(res@, width as int) == padded(s@, width as int),
        decreases width - n,
    {
        res.push(' ');
        n += 1;
    }
    res
}

} // verus!
