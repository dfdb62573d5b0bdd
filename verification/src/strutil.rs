//! Small helpers for moving between `&str`, `String` and `Vec<char>`.

use vstd::prelude::*;
use vstd::std_specs::iter::IteratorSpec;

verus! {

broadcast use vstd::string::next_postcondition, vstd::string::axiom_spec_iter;

/// Whether `c` occurs in `s`.
pub open spec fn contains_char(s: Seq<char>, c: char) -> bool {
    exists|i: int| 0 <= i < s.len() && s[i] == c
}

/// Whether `c` counts as a letter, exactly as `char::is_alphabetic` decides it.
/// The Unicode `Alphabetic` property is far too large to restate, so it is
/// left uninterpreted and pinned to the standard library through
/// `is_alphabetic` below.
pub uninterp spec fn alphabetic(c: char) -> bool;

/// Relies on `char::is_alphabetic`: a pure classification of the character.
#[verifier::external_body]
pub fn is_alphabetic(c: char) -> (b: bool)
    ensures
        b == alphabetic(c),
{
    c.is_alphabetic()
}

/// Relies on `String::push`: appends the given character to the end of the string.
#[verifier::external_body]
pub fn push_char(s: &mut String, c: char)
    ensures
        final(s)@ == old(s)@ + seq![c],
{
    s.push(c)
}

/// The characters of `s`, in order, as a vector.
pub fn str_chars(s: &str) -> (v: Vec<char>)
    ensures
        v@ == s@,
{
    let mut it = s.chars();
    let mut v: Vec<char> = Vec::new();
    loop
        invariant
            v@ + it.remaining() == s@,
            it.decrease() is Some,
        ensures
            v@ == s@,
        decreases it.decrease().unwrap(),
    {
        let ghost prev = it;
        match it.next() {
            Some(c) => {
                v.push(c);
                proof {
                    assert(prev.remaining().len() > 0);
                    assert(v@ + it.remaining() =~= s@);
                }
            },
            None => {
                proof {
                    assert(v@ =~= s@);
                }
                break ;
            },
        }
    }
    v
}

} // verus!
