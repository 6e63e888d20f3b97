//! Tilde expansion: a `~` at the very start of a text, alone or followed by
//! `/`, is replaced by the home directory.
use crate::scanner::text_of;
use std::borrow::Cow;
use vstd::prelude::*;
use vstd::std_specs::iter::IteratorSpec;

verus! {

/// The text starts with `~`.
pub open spec fn starts_with_tilde(s: Seq<char>) -> bool {
    s.len() > 0 && s[0] == '~'
}

/// The text starts with a `~` that stands for the home directory: one that is
/// the whole text, or that is followed by `/`.
pub open spec fn tilde_applies(s: Seq<char>) -> bool {
    starts_with_tilde(s) && (s.len() == 1 || s[1] == '/')
}

/// What a home-directory provider may answer: `offers(home)` says that it may
/// give `home`, which is `Some` path or `None` where there is none to be had.
pub type Homes = spec_fn(Option<Seq<char>>) -> bool;

/// The answers of the provider `home_dir`.
pub open spec fn provider<HD>(home_dir: HD) -> Homes where HD: FnOnce() -> Option<String> {
    |home: Option<Seq<char>>|
        exists|answer: Option<String>|
            text_of(answer) == home && #[trigger] call_ensures(home_dir, (), answer)
}

/// `text` is what tilde expansion makes of `input` where the home directory
/// is `home`: the home directory followed by what comes after the `~`, newly
/// built, where the tilde applies and there is a home directory; `input`
/// itself, borrowed, everywhere else.
pub open spec fn tilde_result<'a>(input: &'a str, home: Option<Seq<char>>, text: Cow<'a, str>) -> bool {
    if tilde_applies(input@) && home is Some {
        text is Owned && text@ == home->0 + input@.skip(1)
    } else {
        text == Cow::<'a, str>::Borrowed(input)
    }
}

/// Tells whether `input` starts with `~`.
pub fn has_leading_tilde(input: &str) -> (b: bool)
    ensures
        b == starts_with_tilde(input@),
{
    let mut rest = input.chars();
    match rest.next() {
        Some(c) => c == '~',
        None => false,
    }
}

/// Tells whether `input` starts with a `~` that stands for the home
/// directory.
pub fn tilde_eligible(input: &str) -> (b: bool)
    ensures
        b == tilde_applies(input@),
{
    let mut rest = input.chars();
    match rest.next() {
        Some(c) => {
            if c != '~' {
                return false;
            }
            match rest.next() {
                Some(d) => d == '/',
                None => true,
            }
        },
        None => false,
    }
}

/// Puts `home` in the place of the first character of `input`.
pub(crate) fn replace_first(input: &str, home: &str) -> (text: String)
    requires
        input@.len() >= 1,
    ensures
        text@ == home@ + input@.skip(1),
{
    let mut text = String::from_str(home);
    let mut rest = input.chars();
    let _ = rest.next();
    let ghost mut seen: int = 1;
    assert(input@.drop_first() =~= input@.skip(1));
    assert(text@ =~= home@ + input@.subrange(1, 1));
    loop
        invariant
            1 <= seen <= input@.len(),
            rest.remaining() == input@.skip(seen),
            text@ == home@ + input@.subrange(1, seen),
        decreases input@.len() - seen,
    {
        match rest.next() {
            Some(c) => {
                text.push(c);
                proof {
                    assert(input@.skip(seen).drop_first() =~= input@.skip(seen + 1));
                    assert(text@ =~= home@ + input@.subrange(1, seen + 1));
                    seen = seen + 1;
                }
            },
            None => {
                assert(input@.subrange(1, seen) =~= input@.skip(1));
                return text;
            },
        }
    }
}

/// Tilde expansion of `input` where the home directory is known to be `home`,
/// or known not to be had.
pub fn tilde_with_home<'a>(input: &'a str, home: Option<String>) -> (text: Cow<'a, str>)
    ensures
        tilde_result(input, text_of(home), text),
{
    match home {
        Some(path) => {
            if tilde_eligible(input) {
                Cow::Owned(replace_first(input, path.as_str()))
            } else {
                Cow::Borrowed(input)
            }
        },
        None => Cow::Borrowed(input),
    }
}

/// Expands a leading `~` in `input`, asking `home_dir` for the home directory
/// where the tilde applies, and only there.
///
/// Where `home_dir` gives `Some(path)`, the result is `path` followed by what
/// comes after the `~`. Where it gives `None`, or the tilde does not apply,
/// `input` comes back borrowed.
pub fn tilde_with_context<'a, HD>(input: &'a str, home_dir: HD) -> (text: Cow<'a, str>) where
    HD: FnOnce() -> Option<String>,

    requires
        tilde_applies(input@) ==> call_requires(home_dir, ()),
    ensures
        !tilde_applies(input@) ==> text == Cow::<'a, str>::Borrowed(input),
        tilde_applies(input@) ==> exists|home: Option<Seq<char>>|
            provider(home_dir)(home) && #[trigger] tilde_result(input, home, text),
{
    if !tilde_eligible(input) {
        return Cow::Borrowed(input);
    }
    let answer = home_dir();
    proof {
        assert(provider(home_dir)(text_of(answer)));
    }
    tilde_with_home(input, answer)
}

} // verus!
