//! Characters of a text: which of them may stand in a variable name, and how a
//! `&str` is read as a sequence of `char`s.
use vstd::prelude::*;
use vstd::std_specs::iter::IteratorSpec;

verus! {

/// What `char::is_alphanumeric` answers for `c`: whether Unicode counts `c` as
/// a letter or a number. The tables behind it are not written out here.
pub uninterp spec fn is_alphanumeric(c: char) -> bool;

/// `char::is_alphanumeric` depends on the character alone; its answer is
/// called [`is_alphanumeric`]. Nothing else is claimed of it.
pub assume_specification[ char::is_alphanumeric ](c: char) -> (b: bool)
    ensures
        b == is_alphanumeric(c),
;

/// `String::push` appends the character to the end of the string.
pub assume_specification[ String::push ](s: &mut String, c: char)
    ensures
        final(s)@ == old(s)@.push(c),
;

/// A character that may stand in a variable name: a letter, a digit or `_`.
pub open spec fn is_name_char(c: char) -> bool {
    c == '_' || is_alphanumeric(c)
}

/// Tells whether `c` may stand in a variable name.
pub fn is_valid_var_name_char(c: char) -> (b: bool)
    ensures
        b == is_name_char(c),
{
    c == '_' || c.is_alphanumeric()
}

/// Tells whether `c` occurs in `text`, without copying anything.
pub fn contains_char(text: &str, c: char) -> (found: bool)
    ensures
        found == text@.contains(c),
{
    let mut rest = text.chars();
    let ghost mut seen: int = 0;
    loop
        invariant
            0 <= seen <= text@.len(),
            rest.remaining() == text@.skip(seen),
            forall|k: int| 0 <= k < seen ==> text@[k] != c,
        decreases text@.len() - seen,
    {
        match rest.next() {
            Some(d) => {
                if d == c {
                    assert(text@[seen] == c);
                    return true;
                }
                proof {
                    assert(text@.skip(seen).drop_first() =~= text@.skip(seen + 1));
                    seen = seen + 1;
                }
            },
            None => {
                return false;
            },
        }
    }
}

/// The characters of `text`, one element each.
pub fn to_chars(text: &str) -> (chars: Vec<char>)
    ensures
        chars@ == text@,
{
    let mut chars: Vec<char> = Vec::new();
    let mut rest = text.chars();
    loop
        invariant
            chars@.len() <= text@.len(),
            rest.remaining() == text@.skip(chars@.len() as int),
            chars@ == text@.take(chars@.len() as int),
        decreases text@.len() - chars@.len(),
    {
        match rest.next() {
            Some(c) => {
                proof {
                    let n = chars@.len() as int;
                    assert(text@.skip(n).drop_first() =~= text@.skip(n + 1));
                    assert(text@.take(n).push(c) =~= text@.take(n + 1));
                }
                chars.push(c);
            },
            None => {
                assert(text@.take(text@.len() as int) =~= text@);
                return chars;
            },
        }
    }
}

} // verus!
