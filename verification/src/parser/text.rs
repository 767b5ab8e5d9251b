//! Characters and strings as the scanner sees them.

use vstd::prelude::*;
use vstd::std_specs::iter::IteratorSpec;

verus! {

/// Whether a character has the Unicode property Alphabetic.
pub uninterp spec fn alphabetic(c: char) -> bool;

/// Trusted: `char::is_alphabetic` tells whether a character has the Unicode
/// property Alphabetic. The answer depends on the character alone, and
/// nothing more is claimed of it than that.
pub assume_specification[ char::is_alphabetic ](c: char) -> (r: bool)
    ensures
        r == alphabetic(c),
;

/// Trusted: `String::push` appends one character to the end of a string.
pub assume_specification[ String::push ](s: &mut String, c: char)
    ensures
        final(s)@ == old(s)@.push(c),
;

/// Trusted: `String::clear` empties a string.
pub assume_specification[ String::clear ](s: &mut String)
    ensures
        final(s)@ == Seq::<char>::empty(),
;

/// The characters of `s`, in order.
pub fn chars_of(s: &str) -> (v: Vec<char>)
    ensures
        v@ == s@,
{
    let mut v: Vec<char> = Vec::new();
    let mut it = s.chars();
    loop
        invariant
            v@ + it.remaining() == s@,
        ensures
            v@ == s@,
        decreases s@.len() - v@.len(),
    {
        match it.next() {
            Some(c) => {
                v.push(c);
            },
            None => {
                break ;
            },
        }
    }
    v
}

/// The key whose value is a command line.
pub open spec fn exec_key() -> Seq<char> {
    seq!['E', 'x', 'e', 'c']
}

/// Whether `s` is the key `Exec`.
pub fn is_exec_key(s: &str) -> (r: bool)
    ensures
        r == (s@ == exec_key()),
{
    let r = s.unicode_len() == 4 && s.get_char(0) == 'E' && s.get_char(1) == 'x' && s.get_char(2)
        == 'e' && s.get_char(3) == 'c';
    assert(r == (s@ =~= exec_key()));
    r
}

} // verus!
