//! The grammar of variable references, as a mathematical model: how a text
//! falls into tokens, and what each token stands for once the variables have
//! been looked up.
use crate::chars::is_name_char;
use vstd::prelude::*;

verus! {

/// One piece of a text, as the scanner reads it from left to right.
pub enum Token {
    /// Text that stands for itself: an ordinary character, a `$` that starts
    /// nothing, or a `${` that is never closed.
    Literal(Seq<char>),
    /// `$$`, which stands for a single `$`.
    Escape,
    /// A reference to the variable `name`, written `${name}` if `braced` and
    /// `$name` otherwise.
    Var { name: Seq<char>, braced: bool },
}

impl Token {
    /// The text that the token was read from.
    pub open spec fn source(self) -> Seq<char> {
        match self {
            Token::Literal(text) => text,
            Token::Escape => seq!['$', '$'],
            Token::Var { name, braced } => if braced {
                seq!['$', '{'] + name + seq!['}']
            } else {
                seq!['$'] + name
            },
        }
    }

    /// How many characters of the text the token takes up.
    pub open spec fn width(self) -> nat {
        match self {
            Token::Literal(text) => text.len(),
            Token::Escape => 2,
            Token::Var { name, braced } => if braced {
                name.len() + 3
            } else {
                name.len() + 1
            },
        }
    }

    /// The text that the token contributes to the result. `value` is what the
    /// lookup gave for a reference: `Some` text to put in its place, or `None`
    /// for a variable that is not known, which leaves the reference as it was
    /// written. It plays no part for the other tokens.
    pub open spec fn expansion(self, value: Option<Seq<char>>) -> Seq<char> {
        match self {
            Token::Literal(text) => text,
            Token::Escape => seq!['$'],
            Token::Var { .. } => match value {
                Some(text) => text,
                None => self.source(),
            },
        }
    }

    /// Whether the token is replaced by something else than what it was read
    /// from: an escape always is, a reference where the lookup gave a value
    /// for it, and literal text never.
    pub open spec fn replaced(self, value: Option<Seq<char>>) -> bool {
        match self {
            Token::Literal(_) => false,
            Token::Escape => true,
            Token::Var { .. } => value is Some,
        }
    }
}

/// How many characters stand between position `from` and the next `c` at or
/// after it, or the end of `s` where no `c` follows.
pub open spec fn gap(s: Seq<char>, c: char, from: int) -> nat
    decreases s.len() - from,
{
    if from < 0 || from >= s.len() || s[from] == c {
        0
    } else {
        1 + gap(s, c, from + 1)
    }
}

/// The length of the longest run of name characters that starts at `from`.
pub open spec fn name_len(s: Seq<char>, from: int) -> nat
    decreases s.len() - from,
{
    if from < 0 || from >= s.len() || !is_name_char(s[from]) {
        0
    } else {
        1 + name_len(s, from + 1)
    }
}

/// The token that starts at position `i` of `s`.
pub open spec fn token_at(s: Seq<char>, i: int) -> Token
    recommends
        0 <= i < s.len(),
{
    if s[i] != '$' {
        Token::Literal(seq![s[i]])
    } else if i + 1 >= s.len() {
        Token::Literal(seq!['$'])
    } else if s[i + 1] == '{' {
        let n = gap(s, '}', i + 2);
        if i + 2 + n < s.len() {
            Token::Var { name: s.subrange(i + 2, i + 2 + n), braced: true }
        } else {
            Token::Literal(seq!['$', '{'])
        }
    } else if s[i + 1] == '$' {
        Token::Escape
    } else if is_name_char(s[i + 1]) {
        Token::Var { name: s.subrange(i + 1, i + 1 + name_len(s, i + 1)), braced: false }
    } else {
        Token::Literal(seq!['$'])
    }
}

/// The tokens of `s` from position `i` to its end.
pub open spec fn tokens_from(s: Seq<char>, i: int) -> Seq<Token>
    decreases s.len() - i,
    via tokens_from_terminates
{
    if i < 0 || i >= s.len() {
        Seq::empty()
    } else {
        seq![token_at(s, i)] + tokens_from(s, i + token_at(s, i).width())
    }
}

#[via_fn]
proof fn tokens_from_terminates(s: Seq<char>, i: int) {
    if 0 <= i < s.len() {
        lemma_token_at(s, i);
    }
}

/// The tokens of the whole text `s`.
pub open spec fn tokens(s: Seq<char>) -> Seq<Token> {
    tokens_from(s, 0)
}

/// The result for `tokens`, where `values[k]` is what the lookup gave for
/// token `k`: the expansions of the tokens, one after the other.
pub open spec fn render(tokens: Seq<Token>, values: Seq<Option<Seq<char>>>) -> Seq<char>
    recommends
        values.len() == tokens.len(),
    decreases tokens.len(),
{
    if tokens.len() == 0 {
        Seq::empty()
    } else {
        render(tokens.drop_last(), values.drop_last()) + tokens.last().expansion(values.last())
    }
}

/// Whether anything in the text is replaced: some token is an escape, or a
/// reference for which the lookup gave a value.
pub open spec fn any_replaced(tokens: Seq<Token>, values: Seq<Option<Seq<char>>>) -> bool
    recommends
        values.len() == tokens.len(),
{
    exists|k: int| 0 <= k < tokens.len() && (#[trigger] tokens[k]).replaced(values[k])
}

/// Where a run counted by [`gap`] ends: inside `s`, on the first `c`.
pub proof fn lemma_gap(s: Seq<char>, c: char, from: int)
    requires
        0 <= from <= s.len(),
    ensures
        from + gap(s, c, from) <= s.len(),
        forall|k: int| from <= k < from + gap(s, c, from) ==> s[k] != c,
        from + gap(s, c, from) < s.len() ==> s[from + gap(s, c, from)] == c,
    decreases s.len() - from,
{
    if from < s.len() && s[from] != c {
        lemma_gap(s, c, from + 1);
    }
}

/// Where a run counted by [`name_len`] ends: inside `s`, on the first
/// character that is no name character.
pub proof fn lemma_name_len(s: Seq<char>, from: int)
    requires
        0 <= from <= s.len(),
    ensures
        from + name_len(s, from) <= s.len(),
        forall|k: int| from <= k < from + name_len(s, from) ==> is_name_char(s[k]),
        from + name_len(s, from) < s.len() ==> !is_name_char(s[from + name_len(s, from)]),
    decreases s.len() - from,
{
    if from < s.len() && is_name_char(s[from]) {
        lemma_name_len(s, from + 1);
    }
}

/// A token lies inside the text, takes up at least one character of it, and
/// was read from exactly the characters it takes up.
pub proof fn lemma_token_at(s: Seq<char>, i: int)
    requires
        0 <= i < s.len(),
    ensures
        1 <= token_at(s, i).width(),
        i + token_at(s, i).width() <= s.len(),
        token_at(s, i).source() == s.subrange(i, i + token_at(s, i).width()),
{
    if i + 1 < s.len() {
        lemma_gap(s, '}', i + 2);
        lemma_name_len(s, i + 1);
    }
    let t = token_at(s, i);
    assert(t.source() =~= s.subrange(i, i + t.width()));
}

/// What one more token adds: token `done` of the text starts at `pos`, the
/// tokens after it start where it ends, and the result grows by its expansion.
pub proof fn lemma_advance(s: Seq<char>, pos: int, values: Seq<Option<Seq<char>>>, value: Option<Seq<char>>)
    requires
        0 <= pos < s.len(),
        values.len() <= tokens(s).len(),
        tokens(s).skip(values.len() as int) == tokens_from(s, pos),
    ensures
        values.len() < tokens(s).len(),
        tokens(s)[values.len() as int] == token_at(s, pos),
        tokens(s).skip(values.len() as int + 1) == tokens_from(s, pos + token_at(s, pos).width()),
        render(tokens(s).take(values.len() as int + 1), values.push(value)) == render(
            tokens(s).take(values.len() as int),
            values,
        ) + token_at(s, pos).expansion(value),
        any_replaced(tokens(s).take(values.len() as int + 1), values.push(value)) == (any_replaced(
            tokens(s).take(values.len() as int),
            values,
        ) || token_at(s, pos).replaced(value)),
{
    let all = tokens(s);
    let done = values.len() as int;
    let rest = tokens_from(s, pos + token_at(s, pos).width());
    assert(all.skip(done) == seq![token_at(s, pos)] + rest);
    assert(all.skip(done).len() >= 1);
    assert(all[done] == all.skip(done)[0]);
    assert(all.skip(done + 1) =~= all.skip(done).skip(1));
    assert(all.skip(done).skip(1) =~= rest);
    assert(all.take(done + 1).drop_last() =~= all.take(done));
    assert(values.push(value).drop_last() =~= values);
    let more = all.take(done + 1);
    let given = values.push(value);
    if any_replaced(all.take(done), values) {
        let k = choose|k: int|
            0 <= k < all.take(done).len() && (#[trigger] all.take(done)[k]).replaced(values[k]);
        assert(more[k].replaced(given[k]));
    }
    if token_at(s, pos).replaced(value) {
        assert(more[done].replaced(given[done]));
    }
    if any_replaced(more, given) {
        let k = choose|k: int| 0 <= k < more.len() && (#[trigger] more[k]).replaced(given[k]);
        if k < done {
            assert(all.take(done)[k].replaced(values[k]));
        }
    }
}

} // verus!
