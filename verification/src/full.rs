//! Full expansion: variables first, then the tilde, such that a tilde is
//! expanded only where the text as it was given starts with one.
use crate::env::{
    env_result, env_with_context, env_with_context_no_errors, expands_to, lemma_result_expands,
    lookup, plain_lookup, reaches, refuses, Answers, LookupError,
};
use crate::scanner::text_of;
use crate::tilde::{
    has_leading_tilde, provider, replace_first, starts_with_tilde, tilde_applies, tilde_eligible,
    Homes,
};
use std::borrow::Cow;
use vstd::prelude::*;

verus! {

/// Whether the home directory is asked for: the text as it was given starts
/// with `~`, and in the text with its variables expanded that tilde stands
/// for the home directory. A tilde that a variable's value brought to the
/// start of the text does not count.
pub open spec fn asks_home(input: Seq<char>, expanded: Seq<char>) -> bool {
    starts_with_tilde(input) && tilde_applies(expanded)
}

/// Some expansion of `input` asks for the home directory.
pub open spec fn may_ask_home(may: Answers, input: Seq<char>) -> bool {
    exists|expanded: Seq<char>| #[trigger] expands_to(may, input, expanded) && asks_home(input, expanded)
}

/// `text` is what full expansion makes of `expanded`, the text that variable
/// expansion made of `input`, where the home directory is `home`: the home
/// directory followed by what comes after the `~`, newly built, where the
/// home directory is asked for and there is one; `expanded` itself everywhere
/// else.
pub open spec fn composed<'a>(
    input: Seq<char>,
    expanded: Cow<'a, str>,
    home: Option<Seq<char>>,
    text: Cow<'a, str>,
) -> bool {
    if asks_home(input, expanded@) && home is Some {
        text is Owned && text@ == home->0 + expanded@.skip(1)
    } else {
        text == expanded
    }
}

/// `text` is a full expansion of `input`: composed from a variable expansion
/// of `input` and, where the home directory is asked for, from an answer of
/// the provider.
pub open spec fn fully_expands<'a>(may: Answers, offers: Homes, input: &'a str, text: Cow<'a, str>) -> bool {
    exists|expanded: Cow<'a, str>, home: Option<Seq<char>>|
        {
            &&& env_result(may, input, expanded)
            &&& asks_home(input@, expanded@) ==> offers(home)
            &&& #[trigger] composed(input@, expanded, home, text)
        }
}

/// The text that `text` holds.
fn as_text<'b, 'a>(text: &'b Cow<'a, str>) -> (s: &'b str)
    ensures
        s@ == text@,
{
    match text {
        Cow::Borrowed(s) => s,
        Cow::Owned(s) => s.as_str(),
    }
}

/// Tells whether full expansion asks for the home directory, for `input` and
/// the text `expanded` that variable expansion made of it.
pub fn needs_home(input: &str, expanded: &str) -> (b: bool)
    ensures
        b == asks_home(input@, expanded@),
{
    has_leading_tilde(input) && tilde_eligible(expanded)
}

/// Full expansion of `input` once the variables are expanded and the home
/// directory is known to be `home`, or known not to be had.
pub fn full_with_home<'a>(input: &str, expanded: Cow<'a, str>, home: Option<String>) -> (text: Cow<
    'a,
    str,
>)
    ensures
        composed(input@, expanded, text_of(home), text),
{
    match home {
        Some(path) => {
            if needs_home(input, as_text(&expanded)) {
                Cow::Owned(replace_first(as_text(&expanded), path.as_str()))
            } else {
                expanded
            }
        },
        None => expanded,
    }
}

/// The tilde step of full expansion: asks `home_dir` where the home
/// directory is asked for, and only there.
fn compose<'a, HD>(input: &str, expanded: Cow<'a, str>, home_dir: HD) -> (text: Cow<'a, str>) where
    HD: FnOnce() -> Option<String>,

    requires
        asks_home(input@, expanded@) ==> call_requires(home_dir, ()),
    ensures
        exists|home: Option<Seq<char>>|
            {
                &&& asks_home(input@, expanded@) ==> provider(home_dir)(home)
                &&& #[trigger] composed(input@, expanded, home, text)
            },
{
    if !needs_home(input, as_text(&expanded)) {
        assert(composed(input@, expanded, None, expanded));
        return expanded;
    }
    let answer = home_dir();
    let ghost before = expanded;
    let text = full_with_home(input, expanded, answer);
    proof {
        assert(provider(home_dir)(text_of(answer)));
        assert(composed(input@, before, text_of(answer), text));
    }
    text
}

/// Expands the variable references in `input`, then a leading `~`.
///
/// The variables are expanded as [`env_with_context`] does, and a failure of
/// `context` is returned as it is, without `home_dir` being asked. The tilde
/// is then expanded in the resulting text as
/// [`tilde_with_context`](crate::tilde::tilde_with_context) does, unless
/// `input` itself does not start with `~`: a tilde that a variable's value
/// brought to the start of the text stays.
///
/// `home_dir` is asked only where `input` starts with `~` and that tilde
/// still stands for the home directory once the variables are expanded. A
/// text in which nothing is replaced, neither a token nor the tilde, comes
/// back borrowed.
pub fn full_with_context<'a, HD, C, E>(input: &'a str, home_dir: HD, context: C) -> (r: Result<
    Cow<'a, str>,
    LookupError<E>,
>) where HD: FnOnce() -> Option<String>, C: FnMut(&str) -> Result<Option<String>, E>
    requires
        may_ask_home(lookup(context), input@) ==> call_requires(home_dir, ()),
        forall|name: &str|
            reaches(lookup(context), input@, name@) ==> call_requires(context, (name,)),
    ensures
        match r {
            Ok(text) => fully_expands(lookup(context), provider(home_dir), input, text),
            Err(e) => reaches(lookup(context), input@, e.name@) && refuses(
                context,
                e.name@,
                e.cause,
            ),
        },
{
    match env_with_context(input, context) {
        Ok(expanded) => {
            let ghost before = expanded;
            proof {
                lemma_result_expands(lookup(context), input, expanded);
            }
            let text = compose(input, expanded, home_dir);
            proof {
                let home = choose|home: Option<Seq<char>>|
                    {
                        &&& asks_home(input@, before@) ==> provider(home_dir)(home)
                        &&& #[trigger] composed(input@, before, home, text)
                    };
                assert(composed(input@, before, home, text));
            }
            Ok(text)
        },
        Err(e) => Err(e),
    }
}

/// Expands the variable references in `input`, then a leading `~`, as
/// [`full_with_context`] does, with a lookup that cannot fail.
pub fn full_with_context_no_errors<'a, HD, C>(input: &'a str, home_dir: HD, context: C) -> (text:
    Cow<'a, str>) where HD: FnOnce() -> Option<String>, C: FnMut(&str) -> Option<String>
    requires
        may_ask_home(plain_lookup(context), input@) ==> call_requires(home_dir, ()),
        forall|name: &str|
            reaches(plain_lookup(context), input@, name@) ==> call_requires(context, (name,)),
    ensures
        fully_expands(plain_lookup(context), provider(home_dir), input, text),
{
    let expanded = env_with_context_no_errors(input, context);
    let ghost before = expanded;
    proof {
        lemma_result_expands(plain_lookup(context), input, expanded);
    }
    let text = compose(input, expanded, home_dir);
    proof {
        let home = choose|home: Option<Seq<char>>|
            {
                &&& asks_home(input@, before@) ==> provider(home_dir)(home)
                &&& #[trigger] composed(input@, before, home, text)
            };
        assert(composed(input@, before, home, text));
    }
    text
}

} // verus!
