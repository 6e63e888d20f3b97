//! What holds of every text: laws of the grammar and of the expansions.
use crate::env::{
    agree, env_result, expands_to, lemma_result_expands, lookup, reaches, refers_to, refuses,
    resolves, Answers, LookupError,
};
use crate::full::{asks_home, composed, fully_expands};
use crate::syntax::{
    any_replaced, gap, lemma_advance, lemma_gap, lemma_token_at, render, token_at, tokens,
    tokens_from, Token,
};
use crate::tilde::{provider, starts_with_tilde, tilde_applies, tilde_result, Homes};
use std::borrow::Cow;
use vstd::prelude::*;

verus! {

/// Every token of a text was read at some position of it.
pub proof fn lemma_token_read(s: Seq<char>, k: int)
    requires
        0 <= k < tokens(s).len(),
    ensures
        exists|p: int| 0 <= p < s.len() && tokens(s)[k] == #[trigger] token_at(s, p),
{
    assert(tokens(s).skip(0) =~= tokens(s));
    lemma_token_read_from(s, 0, 0, k);
}

proof fn lemma_token_read_from(s: Seq<char>, pos: int, done: int, k: int)
    requires
        0 <= pos <= s.len(),
        0 <= done <= k < tokens(s).len(),
        tokens(s).skip(done) == tokens_from(s, pos),
    ensures
        exists|p: int| 0 <= p < s.len() && tokens(s)[k] == #[trigger] token_at(s, p),
    decreases k - done,
{
    assert(tokens(s).skip(done).len() > 0);
    let values = Seq::new(done as nat, |j: int| None::<Seq<char>>);
    lemma_advance(s, pos, values, None);
    lemma_token_at(s, pos);
    if k == done {
        assert(tokens(s)[k] == token_at(s, pos));
    } else {
        lemma_token_read_from(s, pos + token_at(s, pos).width(), done + 1, k);
    }
}

/// A text in which nothing is escaped and no reference is given a value is
/// its own expansion: the tokens stand for what they were read from.
pub proof fn lemma_unchanged(s: Seq<char>, values: Seq<Option<Seq<char>>>)
    requires
        values.len() == tokens(s).len(),
        forall|k: int| 0 <= k < tokens(s).len() ==> !(#[trigger] tokens(s)[k] is Escape),
        forall|k: int|
            0 <= k < tokens(s).len() && (#[trigger] tokens(s)[k]) is Var ==> values[k] is None,
    ensures
        render(tokens(s), values) == s,
{
    assert(tokens(s).skip(0) =~= tokens(s));
    assert(tokens(s).take(0) =~= Seq::<Token>::empty());
    assert(s.take(0) =~= Seq::<char>::empty());
    lemma_unchanged_from(s, values, 0, 0);
}

proof fn lemma_unchanged_from(s: Seq<char>, values: Seq<Option<Seq<char>>>, pos: int, done: int)
    requires
        values.len() == tokens(s).len(),
        forall|k: int| 0 <= k < tokens(s).len() ==> !(#[trigger] tokens(s)[k] is Escape),
        forall|k: int|
            0 <= k < tokens(s).len() && (#[trigger] tokens(s)[k]) is Var ==> values[k] is None,
        0 <= pos <= s.len(),
        0 <= done <= tokens(s).len(),
        tokens(s).skip(done) == tokens_from(s, pos),
        render(tokens(s).take(done), values.take(done)) == s.take(pos),
    ensures
        render(tokens(s), values) == s,
    decreases s.len() - pos,
{
    if pos == s.len() {
        assert(tokens(s).skip(done).len() == 0);
        assert(tokens(s).take(done) =~= tokens(s));
        assert(values.take(done) =~= values);
        assert(s.take(pos) =~= s);
    } else {
        let token = token_at(s, pos);
        lemma_advance(s, pos, values.take(done), values[done]);
        lemma_token_at(s, pos);
        assert(values.take(done).push(values[done]) =~= values.take(done + 1));
        assert(tokens(s)[done] == token);
        assert(token.expansion(values[done]) == token.source());
        assert(s.take(pos) + s.subrange(pos, pos + token.width()) =~= s.take(pos + token.width()));
        lemma_unchanged_from(s, values, pos + token.width(), done + 1);
    }
}

/// A text without `$` holds no reference and no escape, and is its own
/// expansion whatever the values.
pub proof fn lemma_plain_text(s: Seq<char>, values: Seq<Option<Seq<char>>>)
    requires
        !s.contains('$'),
        values.len() == tokens(s).len(),
    ensures
        forall|k: int| 0 <= k < tokens(s).len() ==> (#[trigger] tokens(s)[k]) is Literal,
        render(tokens(s), values) == s,
{
    assert forall|k: int| 0 <= k < tokens(s).len() implies (#[trigger] tokens(s)[k]) is Literal by {
        lemma_token_read(s, k);
        let p = choose|p: int| 0 <= p < s.len() && tokens(s)[k] == #[trigger] token_at(s, p);
        assert(s.contains(s[p]));
    }
    lemma_unchanged(s, values);
}

/// What the tokens stand for depends on the values of the references alone.
pub proof fn lemma_render_by_references(
    tokens: Seq<Token>,
    a: Seq<Option<Seq<char>>>,
    b: Seq<Option<Seq<char>>>,
)
    requires
        a.len() == tokens.len(),
        b.len() == tokens.len(),
        forall|k: int| 0 <= k < tokens.len() && (#[trigger] tokens[k]) is Var ==> a[k] == b[k],
    ensures
        render(tokens, a) == render(tokens, b),
    decreases tokens.len(),
{
    if tokens.len() > 0 {
        let last = tokens.len() - 1;
        assert(tokens[last] is Var ==> a[last] == b[last]);
        assert forall|k: int|
            0 <= k < tokens.drop_last().len() && (#[trigger] tokens.drop_last()[k]) is Var implies a.drop_last()[k]
            == b.drop_last()[k] by {
            assert(tokens[k] is Var);
        }
        lemma_render_by_references(tokens.drop_last(), a.drop_last(), b.drop_last());
    }
}

/// Zero copy, for variable expansion: a text in which nothing is replaced
/// comes back as it is, borrowed. That is a text in which nothing is escaped
/// and for whose variables the lookup gives no value.
pub proof fn law_env_untouched_is_borrowed<'a>(may: Answers, input: &'a str, text: Cow<'a, str>)
    requires
        env_result(may, input, text),
        forall|k: int| 0 <= k < tokens(input@).len() ==> !(#[trigger] tokens(input@)[k] is Escape),
        forall|name: Seq<char>, value: Seq<char>|
            refers_to(input@, name) ==> !#[trigger] may(name, Some(value)),
    ensures
        text == Cow::<'a, str>::Borrowed(input),
{
    let values = choose|values: Seq<Option<Seq<char>>>|
        {
            &&& values.len() == tokens(input@).len()
            &&& agree(may, tokens(input@), values)
            &&& #[trigger] render(tokens(input@), values) == text@
            &&& if any_replaced(tokens(input@), values) {
                text is Owned
            } else {
                text == Cow::<'a, str>::Borrowed(input)
            }
        };
    if any_replaced(tokens(input@), values) {
        let k = choose|k: int|
            0 <= k < tokens(input@).len() && (#[trigger] tokens(input@)[k]).replaced(values[k]);
        let name = tokens(input@)[k]->name;
        assert(refers_to(input@, name));
        assert(may(name, values[k]));
        assert(!may(name, Some(values[k]->0)));
    }
}

/// A text in which something is replaced comes back newly built: one that
/// holds an escape, or a reference to a variable that the lookup always
/// gives a value for.
pub proof fn law_env_replaced_is_owned<'a>(may: Answers, input: &'a str, text: Cow<'a, str>)
    requires
        env_result(may, input, text),
        (exists|k: int| 0 <= k < tokens(input@).len() && #[trigger] tokens(input@)[k] is Escape) || (
        exists|name: Seq<char>| #[trigger] refers_to(input@, name) && !may(name, None)),
    ensures
        text is Owned,
{
    let values = choose|values: Seq<Option<Seq<char>>>|
        {
            &&& values.len() == tokens(input@).len()
            &&& agree(may, tokens(input@), values)
            &&& #[trigger] render(tokens(input@), values) == text@
            &&& if any_replaced(tokens(input@), values) {
                text is Owned
            } else {
                text == Cow::<'a, str>::Borrowed(input)
            }
        };
    if exists|k: int| 0 <= k < tokens(input@).len() && #[trigger] tokens(input@)[k] is Escape {
        let k = choose|k: int| 0 <= k < tokens(input@).len() && #[trigger] tokens(input@)[k] is Escape;
        assert(tokens(input@)[k].replaced(values[k]));
    } else {
        let name = choose|name: Seq<char>| #[trigger] refers_to(input@, name) && !may(name, None);
        let k = choose|k: int|
            0 <= k < tokens(input@).len() && (#[trigger] tokens(input@)[k]) is Var && tokens(
                input@,
            )[k]->name == name;
        assert(may(name, values[k]));
        assert(tokens(input@)[k].replaced(values[k]));
    }
}

/// Zero copy, for a text without `$`: it holds nothing to replace, and comes
/// back as it is, borrowed, whatever the lookup.
pub proof fn law_env_zero_copy<'a>(may: Answers, input: &'a str, text: Cow<'a, str>)
    requires
        env_result(may, input, text),
        !input@.contains('$'),
    ensures
        text == Cow::<'a, str>::Borrowed(input),
{
    lemma_plain_text(input@, Seq::new(tokens(input@).len(), |k: int| None));
    assert forall|name: Seq<char>| !refers_to(input@, name) by {
        if refers_to(input@, name) {
            let k = choose|k: int|
                0 <= k < tokens(input@).len() && (#[trigger] tokens(input@)[k]) is Var && tokens(
                    input@,
                )[k]->name == name;
            assert(tokens(input@)[k] is Literal);
        }
    }
    law_env_untouched_is_borrowed(may, input, text);
}

/// Zero copy, for tilde expansion: a text to which the tilde does not apply
/// comes back as it is, borrowed, whatever the home directory.
pub proof fn law_tilde_zero_copy<'a>(input: &'a str, home: Option<Seq<char>>, text: Cow<'a, str>)
    requires
        tilde_result(input, home, text),
        !tilde_applies(input@),
    ensures
        text == Cow::<'a, str>::Borrowed(input),
{
}

/// Zero copy, for full expansion: a text without `$` and without a tilde
/// that applies comes back as it is, borrowed, whatever the lookup and the
/// home directory.
pub proof fn law_full_zero_copy<'a>(may: Answers, offers: Homes, input: &'a str, text: Cow<'a, str>)
    requires
        fully_expands(may, offers, input, text),
        !input@.contains('$'),
        !tilde_applies(input@),
    ensures
        text == Cow::<'a, str>::Borrowed(input),
{
    let (expanded, home) = choose|expanded: Cow<'a, str>, home: Option<Seq<char>>|
        {
            &&& env_result(may, input, expanded)
            &&& asks_home(input@, expanded@) ==> offers(home)
            &&& #[trigger] composed(input@, expanded, home, text)
        };
    law_env_zero_copy(may, input, expanded);
}

/// Zero copy, for full expansion in general: a text in which nothing is
/// replaced, neither a token nor the tilde, comes back as it is, borrowed.
pub proof fn law_full_untouched_is_borrowed<'a>(
    may: Answers,
    offers: Homes,
    input: &'a str,
    text: Cow<'a, str>,
)
    requires
        fully_expands(may, offers, input, text),
        forall|k: int| 0 <= k < tokens(input@).len() ==> !(#[trigger] tokens(input@)[k] is Escape),
        forall|name: Seq<char>, value: Seq<char>|
            refers_to(input@, name) ==> !#[trigger] may(name, Some(value)),
        !tilde_applies(input@) || forall|home: Seq<char>| !#[trigger] offers(Some(home)),
    ensures
        text == Cow::<'a, str>::Borrowed(input),
{
    let (expanded, home) = choose|expanded: Cow<'a, str>, home: Option<Seq<char>>|
        {
            &&& env_result(may, input, expanded)
            &&& asks_home(input@, expanded@) ==> offers(home)
            &&& #[trigger] composed(input@, expanded, home, text)
        };
    law_env_untouched_is_borrowed(may, input, expanded);
    if asks_home(input@, expanded@) && home is Some {
        assert(offers(Some(home->0)));
    }
}

/// Expanding a text that needs no expansion any number of times gives the
/// same every time: two full expansions of a text without `$` and without a
/// tilde that applies are the same text, the one that was given.
pub proof fn law_no_op_repeats<'a>(
    may: Answers,
    offers: Homes,
    input: &'a str,
    first: Cow<'a, str>,
    second: Cow<'a, str>,
)
    requires
        fully_expands(may, offers, input, first),
        fully_expands(may, offers, input, second),
        !input@.contains('$'),
        !tilde_applies(input@),
    ensures
        first == second,
        first@ == input@,
{
    law_full_zero_copy(may, offers, input, first);
    law_full_zero_copy(may, offers, input, second);
}

/// Fail fast: where the text refers to a variable for which the lookup never
/// succeeds, the text has no expansion, so that neither variable expansion
/// nor full expansion can return one.
pub proof fn law_fail_fast<'a>(
    may: Answers,
    offers: Homes,
    input: &'a str,
    name: Seq<char>,
    text: Cow<'a, str>,
)
    requires
        refers_to(input@, name),
        forall|value: Option<Seq<char>>| !#[trigger] may(name, value),
    ensures
        !expands_to(may, input@, text@),
        !env_result(may, input, text),
        !fully_expands(may, offers, input, text),
{
    assert forall|t: Seq<char>| !expands_to(may, input@, t) by {
        if expands_to(may, input@, t) {
            let values = choose|values: Seq<Option<Seq<char>>>|
                {
                    &&& values.len() == tokens(input@).len()
                    &&& agree(may, tokens(input@), values)
                    &&& #[trigger] render(tokens(input@), values) == t
                };
            let k = choose|k: int|
                0 <= k < tokens(input@).len() && (#[trigger] tokens(input@)[k]) is Var && tokens(
                    input@,
                )[k]->name == name;
            assert(may(tokens(input@)[k]->name, values[k]));
        }
    }
}

/// A variable that the lookup does not know stays as it was written: where
/// the lookup gives no value for any variable of the text, and nothing in the
/// text is escaped, every expansion of the text is the text itself.
pub proof fn law_unknown_stays(may: Answers, input: Seq<char>, text: Seq<char>)
    requires
        expands_to(may, input, text),
        forall|name: Seq<char>, value: Seq<char>|
            refers_to(input, name) ==> !#[trigger] may(name, Some(value)),
        forall|k: int| 0 <= k < tokens(input).len() ==> !(#[trigger] tokens(input)[k] is Escape),
    ensures
        text == input,
{
    let values = choose|values: Seq<Option<Seq<char>>>|
        {
            &&& values.len() == tokens(input).len()
            &&& agree(may, tokens(input), values)
            &&& #[trigger] render(tokens(input), values) == text
        };
    assert forall|k: int|
        0 <= k < tokens(input).len() && (#[trigger] tokens(input)[k]) is Var implies values[k] is None by {
        let name = tokens(input)[k]->name;
        assert(refers_to(input, name));
        assert(may(name, values[k]));
        if values[k] is Some {
            assert(!may(name, Some(values[k]->0)));
        }
    }
    lemma_unchanged(input, values);
}

/// A lookup that can give one answer only for each name leaves one expansion
/// only: two expansions of a text are then the same.
pub proof fn law_one_answer_one_expansion(may: Answers, input: Seq<char>, a: Seq<char>, b: Seq<char>)
    requires
        expands_to(may, input, a),
        expands_to(may, input, b),
        forall|name: Seq<char>, v: Option<Seq<char>>, w: Option<Seq<char>>|
            #[trigger] may(name, v) && #[trigger] may(name, w) ==> v == w,
    ensures
        a == b,
{
    let va = choose|values: Seq<Option<Seq<char>>>|
        {
            &&& values.len() == tokens(input).len()
            &&& agree(may, tokens(input), values)
            &&& #[trigger] render(tokens(input), values) == a
        };
    let vb = choose|values: Seq<Option<Seq<char>>>|
        {
            &&& values.len() == tokens(input).len()
            &&& agree(may, tokens(input), values)
            &&& #[trigger] render(tokens(input), values) == b
        };
    assert forall|k: int|
        0 <= k < tokens(input).len() && (#[trigger] tokens(input)[k]) is Var implies va[k] == vb[k] by {
        assert(may(tokens(input)[k]->name, va[k]));
        assert(may(tokens(input)[k]->name, vb[k]));
    }
    lemma_render_by_references(tokens(input), va, vb);
}

/// Escaping: in a text that holds no `$` but one `$$`, the `$$` stands for a
/// single `$` and everything else for itself, whatever the lookup gives.
pub proof fn law_escape(may: Answers, before: Seq<char>, after: Seq<char>, text: Seq<char>)
    requires
        !before.contains('$'),
        !after.contains('$'),
        expands_to(may, before + seq!['$', '$'] + after, text),
    ensures
        text == before + seq!['$'] + after,
{
    let s = before + seq!['$', '$'] + after;
    let values = choose|values: Seq<Option<Seq<char>>>|
        {
            &&& values.len() == tokens(s).len()
            &&& agree(may, tokens(s), values)
            &&& #[trigger] render(tokens(s), values) == text
        };
    assert(tokens(s).skip(0) =~= tokens(s));
    assert(tokens(s).take(0) =~= Seq::<Token>::empty());
    assert(before.take(0) =~= Seq::<char>::empty());
    lemma_escape_from(before, after, values, 0, 0);
}

proof fn lemma_escape_from(
    before: Seq<char>,
    after: Seq<char>,
    values: Seq<Option<Seq<char>>>,
    pos: int,
    done: int,
)
    requires
        !before.contains('$'),
        !after.contains('$'),
        values.len() == tokens(before + seq!['$', '$'] + after).len(),
        0 <= pos <= before.len() + 2 + after.len(),
        pos != before.len() + 1,
        0 <= done <= values.len(),
        tokens(before + seq!['$', '$'] + after).skip(done) == tokens_from(
            before + seq!['$', '$'] + after,
            pos,
        ),
        render(tokens(before + seq!['$', '$'] + after).take(done), values.take(done)) == if pos
            <= before.len() {
            before.take(pos)
        } else {
            before + seq!['$'] + after.take(pos - before.len() - 2)
        },
    ensures
        render(tokens(before + seq!['$', '$'] + after), values) == before + seq!['$'] + after,
    decreases before.len() + 2 + after.len() - pos,
{
    let s = before + seq!['$', '$'] + after;
    let n = before.len() as int;
    if pos == s.len() {
        assert(tokens(s).skip(done).len() == 0);
        assert(tokens(s).take(done) =~= tokens(s));
        assert(values.take(done) =~= values);
        assert(after.take(after.len() as int) =~= after);
    } else {
        let token = token_at(s, pos);
        lemma_advance(s, pos, values.take(done), values[done]);
        assert(values.take(done).push(values[done]) =~= values.take(done + 1));
        if pos < n {
            assert(before.contains(before[pos]));
            assert(token == Token::Literal(seq![before[pos]]));
            assert(before.take(pos) + seq![before[pos]] =~= before.take(pos + 1));
        } else if pos == n {
            assert(token == Token::Escape);
            assert(before.take(pos) =~= before);
            assert(after.take(0) =~= Seq::<char>::empty());
            assert(before + seq!['$'] =~= before + seq!['$'] + after.take(0));
        } else {
            let j = pos - n - 2;
            assert(after.contains(after[j]));
            assert(s[pos] == after[j]);
            assert(token == Token::Literal(seq![after[j]]));
            assert(before + seq!['$'] + after.take(j) + seq![after[j]] =~= before + seq!['$']
                + after.take(j + 1));
        }
        lemma_escape_from(before, after, values, pos + token.width(), done + 1);
    }
}

/// A `${` that no `}` follows starts no reference: a text without `}` holds
/// no braced reference.
pub proof fn law_unclosed_brace(s: Seq<char>, k: int)
    requires
        !s.contains('}'),
        0 <= k < tokens(s).len(),
    ensures
        !(tokens(s)[k] matches Token::Var { braced, .. } && braced),
{
    lemma_token_read(s, k);
    let p = choose|p: int| 0 <= p < s.len() && tokens(s)[k] == #[trigger] token_at(s, p);
    if p + 1 < s.len() {
        lemma_gap(s, '}', p + 2);
        let close = p + 2 + gap(s, '}', p + 2);
        if close < s.len() {
            assert(s.contains(s[close]));
        }
    }
}

/// Fail fast, for variable expansion: where the text refers to `name`, the
/// lookup never succeeds for `name`, and it fails for no other name, what
/// [`env_with_context`](crate::env::env_with_context) returns is the failure
/// for `name`, with a cause that the lookup gave for it.
pub proof fn law_env_failure<'a, C, E>(
    context: C,
    input: &'a str,
    name: Seq<char>,
    r: Result<Cow<'a, str>, LookupError<E>>,
) where C: FnMut(&str) -> Result<Option<String>, E>
    requires
        match r {
            Ok(text) => env_result(lookup(context), input, text),
            Err(e) => reaches(lookup(context), input@, e.name@) && refuses(context, e.name@, e.cause),
        },
        refers_to(input@, name),
        forall|value: Option<Seq<char>>| !#[trigger] resolves(context, name, value),
        forall|other: Seq<char>, cause: E| #[trigger] refuses(context, other, cause) ==> other == name,
    ensures
        r matches Err(e) && e.name@ == name && refuses(context, name, e.cause),
{
    if let Ok(text) = r {
        law_fail_fast(lookup(context), |home: Option<Seq<char>>| true, input, name, text);
    }
}

/// Fail fast, for full expansion: under the same conditions, what
/// [`full_with_context`](crate::full::full_with_context) returns is the
/// failure for `name`, whatever the home directory.
pub proof fn law_full_failure<'a, HD, C, E>(
    home_dir: HD,
    context: C,
    input: &'a str,
    name: Seq<char>,
    r: Result<Cow<'a, str>, LookupError<E>>,
) where HD: FnOnce() -> Option<String>, C: FnMut(&str) -> Result<Option<String>, E>
    requires
        match r {
            Ok(text) => fully_expands(lookup(context), provider(home_dir), input, text),
            Err(e) => reaches(lookup(context), input@, e.name@) && refuses(context, e.name@, e.cause),
        },
        refers_to(input@, name),
        forall|value: Option<Seq<char>>| !#[trigger] resolves(context, name, value),
        forall|other: Seq<char>, cause: E| #[trigger] refuses(context, other, cause) ==> other == name,
    ensures
        r matches Err(e) && e.name@ == name && refuses(context, name, e.cause),
{
    if let Ok(text) = r {
        law_fail_fast(lookup(context), provider(home_dir), input, name, text);
    }
}

/// A tilde that a variable's value brings to the start of the text stays:
/// full expansion of a text that does not itself start with `~` is its
/// variable expansion, and the home directory plays no part in it.
pub proof fn law_tilde_from_value_stays<'a>(
    may: Answers,
    offers: Homes,
    input: &'a str,
    text: Cow<'a, str>,
)
    requires
        fully_expands(may, offers, input, text),
        !starts_with_tilde(input@),
    ensures
        env_result(may, input, text),
{
    let (expanded, home) = choose|expanded: Cow<'a, str>, home: Option<Seq<char>>|
        {
            &&& env_result(may, input, expanded)
            &&& asks_home(input@, expanded@) ==> offers(home)
            &&& #[trigger] composed(input@, expanded, home, text)
        };
    assert(text == expanded);
}

/// A leading tilde is expanded in the text that the variables left: where
/// the text starts with `~`, the tilde still stands for the home directory
/// once the variables are expanded, and there is a home directory, a full
/// expansion is that home directory followed by what a variable expansion
/// left after the `~`.
pub proof fn law_tilde_after_variables<'a>(
    may: Answers,
    offers: Homes,
    input: &'a str,
    text: Cow<'a, str>,
)
    requires
        fully_expands(may, offers, input, text),
        starts_with_tilde(input@),
        forall|expanded: Seq<char>| #[trigger] expands_to(may, input@, expanded) ==> tilde_applies(expanded),
        !offers(None),
    ensures
        exists|expanded: Seq<char>, home: Seq<char>|
            {
                &&& expands_to(may, input@, expanded)
                &&& offers(Some(home))
                &&& text@ == #[trigger] (home + expanded.skip(1))
            },
{
    let (expanded, home) = choose|expanded: Cow<'a, str>, home: Option<Seq<char>>|
        {
            &&& env_result(may, input, expanded)
            &&& asks_home(input@, expanded@) ==> offers(home)
            &&& #[trigger] composed(input@, expanded, home, text)
        };
    lemma_result_expands(may, input, expanded);
    assert(text@ == home->0 + expanded@.skip(1));
}

} // verus!
