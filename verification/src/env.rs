//! Variable expansion: `$NAME` and `${NAME}` are replaced by what a lookup
//! gives for `NAME`.
use crate::chars::contains_char;
use crate::laws::lemma_plain_text;
use crate::scanner::{filled, text_of, Scanner, Step};
use crate::syntax::{any_replaced, render, tokens, Token};
use std::borrow::Cow;
use vstd::prelude::*;

verus! {

/// A lookup that failed: the name of the variable, and what the lookup gave
/// as the cause.
#[derive(Debug, Clone, PartialEq, Eq)]
pub struct LookupError<E> {
    pub name: String,
    pub cause: E,
}

impl<E> LookupError<E> {
    /// The message for this error, where `cause` is the cause as text.
    pub fn message(&self, cause: &str) -> (text: String)
        ensures
            text@ == "error looking key '"@ + self.name@ + "' up: "@ + cause@,
    {
        let mut text = String::from_str("error looking key '");
        text.append(self.name.as_str());
        text.append("' up: ");
        text.append(cause);
        text
    }
}

/// What a lookup may answer: `may(name, value)` says that, asked for `name`,
/// it may give `value`, which is `Some` text or `None` for a variable that it
/// does not know.
pub type Answers = spec_fn(Seq<char>, Option<Seq<char>>) -> bool;

/// Each value that stands for a reference is one that the lookup may give for
/// the reference's name.
pub open spec fn agree(may: Answers, tokens: Seq<Token>, values: Seq<Option<Seq<char>>>) -> bool {
    forall|k: int|
        0 <= k < values.len() && k < tokens.len() && (#[trigger] tokens[k]) is Var ==> may(
            tokens[k]->name,
            values[k],
        )
}

/// `text` is an expansion of `input`: the lookup may give, for each reference
/// in turn, a value such that `text` is what the tokens of `input` stand for.
pub open spec fn expands_to(may: Answers, input: Seq<char>, text: Seq<char>) -> bool {
    exists|values: Seq<Option<Seq<char>>>|
        {
            &&& values.len() == tokens(input).len()
            &&& agree(may, tokens(input), values)
            &&& #[trigger] render(tokens(input), values) == text
        }
}

/// The scan of `input` can come as far as a reference to `name`: the lookup
/// may give a value for each reference before it.
pub open spec fn reaches(may: Answers, input: Seq<char>, name: Seq<char>) -> bool {
    exists|values: Seq<Option<Seq<char>>>|
        {
            &&& values.len() < tokens(input).len()
            &&& #[trigger] agree(may, tokens(input), values)
            &&& tokens(input)[values.len() as int] is Var
            &&& tokens(input)[values.len() as int]->name == name
        }
}

/// `text` is what variable expansion makes of `input`: the lookup may give,
/// for each reference in turn, a value such that `text` is what the tokens of
/// `input` stand for. Where any token is replaced, an escape or a reference
/// that the lookup gave a value for, `text` is newly built; where none is,
/// `text` is `input` itself, borrowed.
pub open spec fn env_result<'a>(may: Answers, input: &'a str, text: Cow<'a, str>) -> bool {
    exists|values: Seq<Option<Seq<char>>>|
        {
            &&& values.len() == tokens(input@).len()
            &&& agree(may, tokens(input@), values)
            &&& #[trigger] render(tokens(input@), values) == text@
            &&& if any_replaced(tokens(input@), values) {
                text is Owned
            } else {
                text == Cow::<'a, str>::Borrowed(input)
            }
        }
}

/// `name` is the name of a reference in `input`.
pub open spec fn refers_to(input: Seq<char>, name: Seq<char>) -> bool {
    exists|k: int|
        0 <= k < tokens(input).len() && (#[trigger] tokens(input)[k]) is Var && tokens(
            input,
        )[k]->name == name
}

/// Asked for `name`, the lookup `context` may succeed with `value`.
pub open spec fn resolves<C, E>(context: C, name: Seq<char>, value: Option<Seq<char>>) -> bool where
    C: FnMut(&str) -> Result<Option<String>, E>,
 {
    exists|asked: &str, answer: Option<String>|
        {
            &&& asked@ == name
            &&& text_of(answer) == value
            &&& #[trigger] call_ensures(context, (asked,), Ok::<Option<String>, E>(answer))
        }
}

/// Asked for `name`, the lookup `context` may fail with `cause`.
pub open spec fn refuses<C, E>(context: C, name: Seq<char>, cause: E) -> bool where
    C: FnMut(&str) -> Result<Option<String>, E>,
 {
    exists|asked: &str|
        asked@ == name && #[trigger] call_ensures(
            context,
            (asked,),
            Err::<Option<String>, E>(cause),
        )
}

/// The answers of a lookup that can fail.
pub open spec fn lookup<C, E>(context: C) -> Answers where
    C: FnMut(&str) -> Result<Option<String>, E>,
 {
    |name: Seq<char>, value: Option<Seq<char>>| resolves(context, name, value)
}

/// Asked for `name`, the lookup `context` may give `value`.
pub open spec fn gives<C>(context: C, name: Seq<char>, value: Option<Seq<char>>) -> bool where
    C: FnMut(&str) -> Option<String>,
 {
    exists|asked: &str, answer: Option<String>|
        {
            &&& asked@ == name
            &&& text_of(answer) == value
            &&& #[trigger] call_ensures(context, (asked,), answer)
        }
}

/// The answers of a lookup that cannot fail.
pub open spec fn plain_lookup<C>(context: C) -> Answers where C: FnMut(&str) -> Option<String> {
    |name: Seq<char>, value: Option<Seq<char>>| gives(context, name, value)
}

/// What variable expansion makes of a text is an expansion of it.
pub proof fn lemma_result_expands<'a>(may: Answers, input: &'a str, text: Cow<'a, str>)
    requires
        env_result(may, input, text),
    ensures
        expands_to(may, input@, text@),
{
    let values = choose|values: Seq<Option<Seq<char>>>|
        {
            &&& values.len() == tokens(input@).len()
            &&& agree(may, tokens(input@), values)
            &&& #[trigger] render(tokens(input@), values) == text@
            &&& if any_replaced(tokens(input@), values) {
                text is Owned
            } else {
                text == Cow::<'a, str>::Borrowed(input)
            }
        };
    assert(render(tokens(input@), values) == text@);
}

/// Values stay in agreement where `None` is added for tokens that are no
/// references.
proof fn lemma_agree_filled(
    may: Answers,
    tokens: Seq<Token>,
    values: Seq<Option<Seq<char>>>,
    len: nat,
)
    requires
        agree(may, tokens, values),
        values.len() <= len,
        forall|k: int| values.len() <= k < len && k < tokens.len() ==> !((#[trigger] tokens[k]) is Var),
    ensures
        agree(may, tokens, filled(values, len)),
{
}

/// Values stay in agreement where the next reference is given a value that
/// the lookup may give for it.
proof fn lemma_agree_push(
    may: Answers,
    tokens: Seq<Token>,
    values: Seq<Option<Seq<char>>>,
    value: Option<Seq<char>>,
)
    requires
        agree(may, tokens, values),
        values.len() < tokens.len(),
        tokens[values.len() as int] is Var,
        may(tokens[values.len() as int]->name, value),
    ensures
        agree(may, tokens, values.push(value)),
{
}

/// Expands the variable references in `input`, asking `context` for each
/// variable in turn, from left to right.
///
/// `context` answers `Ok(Some(value))` for a variable that it knows,
/// `Ok(None)` for one that it does not know, which leaves the reference as it
/// was written, and `Err(cause)` to give up. The first failure ends the scan,
/// and nothing of the text expanded so far is returned with it.
///
/// A text in which nothing is replaced comes back borrowed: one without
/// escapes in which no reference is given a value. A text without `$` is not
/// even read a second time.
pub fn env_with_context<'a, C, E>(input: &'a str, context: C) -> (r: Result<
    Cow<'a, str>,
    LookupError<E>,
>) where C: FnMut(&str) -> Result<Option<String>, E>
    requires
        forall|name: &str|
            reaches(lookup(context), input@, name@) ==> call_requires(context, (name,)),
    ensures
        match r {
            Ok(text) => env_result(lookup(context), input, text),
            Err(e) => reaches(lookup(context), input@, e.name@) && refuses(
                context,
                e.name@,
                e.cause,
            ),
        },
{
    if !contains_char(input, '$') {
        proof {
            let values = Seq::new(tokens(input@).len(), |k: int| None::<Seq<char>>);
            lemma_plain_text(input@, values);
            assert(agree(lookup(context), tokens(input@), values));
            assert(!any_replaced(tokens(input@), values));
            assert(render(tokens(input@), values) == input@);
        }
        return Ok(Cow::Borrowed(input));
    }
    let mut ask = context;
    let mut scanner = Scanner::new(input);
    loop
        invariant
            ask == context,
            scanner.text() == input@,
            scanner.values().len() <= tokens(input@).len(),
            agree(lookup(context), tokens(input@), scanner.values()),
            forall|name: &str|
                reaches(lookup(context), input@, name@) ==> call_requires(context, (name,)),
        decreases tokens(input@).len() - scanner.values().len(),
    {
        let ghost before = scanner.values();
        let step = scanner.next_reference();
        match step {
            Step::Done(text) => {
                proof {
                    lemma_agree_filled(lookup(context), tokens(input@), before, tokens(input@).len());
                }
                return Ok(Cow::Owned(text));
            },
            Step::Unchanged => {
                proof {
                    lemma_agree_filled(lookup(context), tokens(input@), before, tokens(input@).len());
                }
                return Ok(Cow::Borrowed(input));
            },
            Step::Reference(pending) => {
                proof {
                    lemma_agree_filled(lookup(context), tokens(input@), before, pending.index() as nat);
                    assert(reaches(lookup(context), input@, pending.name()));
                }
                match ask(pending.wanted()) {
                    Ok(value) => {
                        proof {
                            assert(resolves(context, pending.name(), text_of(value)));
                            lemma_agree_push(
                                lookup(context),
                                tokens(input@),
                                pending.values(),
                                text_of(value),
                            );
                        }
                        scanner = pending.resolve(value);
                    },
                    Err(cause) => {
                        assert(refuses(context, pending.name(), cause));
                        return Err(LookupError { name: pending.into_name(), cause });
                    },
                }
            },
        }
    }
}

/// Expands the variable references in `input` as [`env_with_context`] does,
/// with a lookup that cannot fail: `context` answers `Some(value)` for a
/// variable that it knows and `None` for one that it does not know.
pub fn env_with_context_no_errors<'a, C>(input: &'a str, context: C) -> (text: Cow<
    'a,
    str,
>) where C: FnMut(&str) -> Option<String>
    requires
        forall|name: &str|
            reaches(plain_lookup(context), input@, name@) ==> call_requires(context, (name,)),
    ensures
        env_result(plain_lookup(context), input, text),
{
    if !contains_char(input, '$') {
        proof {
            let values = Seq::new(tokens(input@).len(), |k: int| None::<Seq<char>>);
            lemma_plain_text(input@, values);
            assert(agree(plain_lookup(context), tokens(input@), values));
            assert(!any_replaced(tokens(input@), values));
            assert(render(tokens(input@), values) == input@);
        }
        return Cow::Borrowed(input);
    }
    let mut ask = context;
    let mut scanner = Scanner::new(input);
    loop
        invariant
            ask == context,
            scanner.text() == input@,
            scanner.values().len() <= tokens(input@).len(),
            agree(plain_lookup(context), tokens(input@), scanner.values()),
            forall|name: &str|
                reaches(plain_lookup(context), input@, name@) ==> call_requires(context, (name,)),
        decreases tokens(input@).len() - scanner.values().len(),
    {
        let ghost before = scanner.values();
        let step = scanner.next_reference();
        match step {
            Step::Done(text) => {
                proof {
                    lemma_agree_filled(plain_lookup(context), tokens(input@), before, tokens(input@).len());
                }
                return Cow::Owned(text);
            },
            Step::Unchanged => {
                proof {
                    lemma_agree_filled(plain_lookup(context), tokens(input@), before, tokens(input@).len());
                }
                return Cow::Borrowed(input);
            },
            Step::Reference(pending) => {
                proof {
                    lemma_agree_filled(plain_lookup(context), tokens(input@), before, pending.index() as nat);
                    assert(reaches(plain_lookup(context), input@, pending.name()));
                }
                let value = ask(pending.wanted());
                proof {
                    assert(gives(context, pending.name(), text_of(value)));
                    lemma_agree_push(plain_lookup(context), tokens(input@), pending.values(), text_of(value));
                }
                scanner = pending.resolve(value);
            },
        }
    }
}

} // verus!
