//! The random-case "sarcasm" transform: each letter has its case flipped or
//! kept on a coin toss, and everything else stays as it is.

use vstd::prelude::*;
use vstd::std_specs::iter::IteratorSpec;
use vstd::string::{axiom_spec_iter, next_postcondition};

verus! {

broadcast use {axiom_spec_iter, next_postcondition};

/// Whether `char::is_alphabetic` holds of a character.
pub uninterp spec fn alphabetic_of(c: char) -> bool;

/// Whether `char::is_uppercase` holds of a character.
pub uninterp spec fn uppercase_of(c: char) -> bool;

/// The first character of `char::to_lowercase` of a character.
pub uninterp spec fn lower_first_of(c: char) -> char;

/// The first character of `char::to_uppercase` of a character.
pub uninterp spec fn upper_first_of(c: char) -> char;

/// Relies on `char::is_alphabetic`, which depends on the character alone.
#[verifier::external_body]
fn is_alphabetic(c: char) -> (r: bool)
    ensures
        r == alphabetic_of(c),
{
    c.is_alphabetic()
}

/// Relies on `char::is_uppercase`, which depends on the character alone.
#[verifier::external_body]
fn is_uppercase(c: char) -> (r: bool)
    ensures
        r == uppercase_of(c),
{
    c.is_uppercase()
}

/// Relies on `char::to_lowercase`, which yields one or more characters.
#[verifier::external_body]
fn lower_first(c: char) -> (r: char)
    ensures
        r == lower_first_of(c),
{
    c.to_lowercase().next().unwrap()
}

/// Relies on `char::to_uppercase`, which yields one or more characters.
#[verifier::external_body]
fn upper_first(c: char) -> (r: char)
    ensures
        r == upper_first_of(c),
{
    c.to_uppercase().next().unwrap()
}

/// The characters of `s`, in order.
fn chars_of(s: &str) -> (r: Vec<char>)
    ensures
        r@ == s@,
{
    let mut it = s.chars();
    let mut out: Vec<char> = Vec::new();
    loop
        invariant
            out@ + it.remaining() == s@,
            it.obeys_prophetic_iter_laws(),
            it.decrease() is Some,
        ensures
            out@ == s@,
        decreases it.decrease()->0,
    {
        match it.next() {
            Some(c) => {
                out.push(c);
                assert(out@ + it.remaining() =~= s@);
            },
            None => {
                assert(out@ =~= s@);
                break;
            },
        }
    }
    out
}

/// Relies on `String::push`: appends one character.
#[verifier::external_body]
fn push_char(s: &mut String, c: char)
    ensures
        final(s)@ == old(s)@.push(c),
{
    s.push(c)
}

/// Relies on `rand::random::<bool>`: a coin toss; nothing is known of its value.
#[verifier::external_body]
fn coin() -> (r: bool) {
    rand::random::<bool>()
}

/// A character with its case inverted: upper case goes to lower case, and
/// anything else to upper case.
pub open spec fn inverted(c: char) -> char {
    if uppercase_of(c) {
        lower_first_of(c)
    } else {
        upper_first_of(c)
    }
}

/// `s` with the case of each letter `i` inverted where `flips[i]` holds.
pub open spec fn sarcastic(s: Seq<char>, flips: Seq<bool>) -> Seq<char> {
    Seq::new(
        s.len(),
        |i: int|
            if flips[i] && alphabetic_of(s[i]) {
                inverted(s[i])
            } else {
                s[i]
            },
    )
}

/// The case of `c` inverted.
pub fn invert_case(c: char) -> (r: char)
    ensures
        r == inverted(c),
{
    if is_uppercase(c) {
        lower_first(c)
    } else {
        upper_first(c)
    }
}

/// Inverts the case of letter `i` of `text` where `flips[i]` holds.
pub fn sarcasm_with(text: &str, flips: &Vec<bool>) -> (r: String)
    requires
        flips@.len() == text@.len(),
    ensures
        r@ == sarcastic(text@, flips@),
{
    let cs = chars_of(text);
    let mut out = String::new();
    let mut i: usize = 0;
    while i < cs.len()
        invariant
            cs@ == text@,
            flips@.len() == cs@.len(),
            i <= cs.len(),
            out@ == sarcastic(text@, flips@).subrange(0, i as int),
        decreases cs.len() - i,
    {
        let c = cs[i];
        let d = if flips[i] && is_alphabetic(c) {
            invert_case(c)
        } else {
            c
        };
        push_char(&mut out, d);
        i = i + 1;
        assert(out@ =~= sarcastic(text@, flips@).subrange(0, i as int));
    }
    assert(out@ =~= sarcastic(text@, flips@));
    out
}

/// Inverts the case of each letter of `text` on a fresh coin toss.
pub fn sarcasm(text: &str) -> (r: String)
    ensures
        exists|flips: Seq<bool>|
            flips.len() == text@.len() && r@ == sarcastic(text@, flips),
{
    let n = chars_of(text).len();
    let mut flips: Vec<bool> = Vec::new();
    let mut i: usize = 0;
    while i < n
        invariant
            i <= n,
            flips@.len() == i,
        decreases n - i,
    {
        flips.push(coin());
        i = i + 1;
    }
    sarcasm_with(text, &flips)
}

/// Two sarcasm passes keep the shape of the text: the length stays, every
/// character that is not a letter stays where it was, and every letter is
/// either itself or its case inverted after the first pass.
pub proof fn law_sarcasm_keeps_shape(s: Seq<char>, f1: Seq<bool>, f2: Seq<bool>)
    requires
        f1.len() == s.len(),
        f2.len() == s.len(),
    ensures
        sarcastic(s, f1).len() == s.len(),
        sarcastic(sarcastic(s, f1), f2).len() == s.len(),
        forall|i: int|
            0 <= i < s.len() && !alphabetic_of(s[i]) ==> sarcastic(s, f1)[i] == s[i]
                && #[trigger] sarcastic(sarcastic(s, f1), f2)[i] == s[i],
        forall|i: int|
            0 <= i < s.len() ==> #[trigger] sarcastic(s, f1)[i] == s[i] || sarcastic(s, f1)[i]
                == inverted(s[i]),
{
}

} // verus!
