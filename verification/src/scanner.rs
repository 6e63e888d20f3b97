//! The scanner: one pass over a text from left to right, which copies what
//! stands for itself and stops at each variable reference until it is told
//! what the variable holds.
use crate::chars::{is_valid_var_name_char, to_chars};
use crate::syntax::{
    any_replaced, gap, lemma_advance, lemma_gap, lemma_token_at, name_len, render, token_at,
    tokens, tokens_from,
};
use vstd::prelude::*;

verus! {

/// The text of a lookup's answer, if it gave any.
pub open spec fn text_of(value: Option<String>) -> Option<Seq<char>> {
    match value {
        Some(text) => Some(text@),
        None => None,
    }
}

/// The position of the next `c` at or after `from`, or the length of `chars`.
fn find_from(chars: &Vec<char>, c: char, from: usize) -> (at: usize)
    requires
        from <= chars.len(),
    ensures
        at == from + gap(chars@, c, from as int),
        at <= chars.len(),
{
    let mut at: usize = from;
    while at < chars.len() && chars[at] != c
        invariant
            from <= at <= chars.len(),
            gap(chars@, c, from as int) == (at - from) + gap(chars@, c, at as int),
        decreases chars.len() - at,
    {
        at += 1;
    }
    at
}

/// The position after the run of name characters that starts at `from`.
fn name_end(chars: &Vec<char>, from: usize) -> (at: usize)
    requires
        from <= chars.len(),
    ensures
        at == from + name_len(chars@, from as int),
        at <= chars.len(),
{
    let mut at: usize = from;
    while at < chars.len() && is_valid_var_name_char(chars[at])
        invariant
            from <= at <= chars.len(),
            name_len(chars@, from as int) == (at - from) + name_len(chars@, at as int),
        decreases chars.len() - at,
    {
        at += 1;
    }
    at
}

/// Appends the characters `chars[from..to]` to `out`.
fn copy_range(out: &mut String, chars: &Vec<char>, from: usize, to: usize)
    requires
        from <= to <= chars.len(),
    ensures
        final(out)@ == old(out)@ + chars@.subrange(from as int, to as int),
{
    let mut at: usize = from;
    while at < to
        invariant
            from <= at <= to <= chars.len(),
            out@ == old(out)@ + chars@.subrange(from as int, at as int),
        decreases to - at,
    {
        out.push(chars[at]);
        at += 1;
        assert(out@ =~= old(out)@ + chars@.subrange(from as int, at as int));
    }
}

/// What holds of a scanner that has come to position `pos` of `s`: the
/// tokens dealt with so far are the first tokens of the text, and `values`
/// holds one entry for each of them. As long as nothing is replaced, what
/// they stand for is the text up to `pos`, and nothing is written; from then
/// on `out` holds what they stand for.
spec fn consistent(
    s: Seq<char>,
    pos: int,
    closable: bool,
    changed: bool,
    out: Seq<char>,
    values: Seq<Option<Seq<char>>>,
) -> bool {
    let done = tokens(s).take(values.len() as int);
    &&& 0 <= pos <= s.len()
    &&& values.len() <= tokens(s).len()
    &&& tokens(s).skip(values.len() as int) == tokens_from(s, pos)
    &&& changed == any_replaced(done, values)
    &&& render(done, values) == if changed {
        out
    } else {
        s.take(pos)
    }
    &&& !changed ==> out.len() == 0
    &&& !closable ==> forall|k: int| pos <= k < s.len() ==> s[k] != '}'
}

/// `values`, with `None` added for each token that no value has been given
/// for.
pub open spec fn filled(values: Seq<Option<Seq<char>>>, len: nat) -> Seq<Option<Seq<char>>> {
    Seq::new(len, |k: int| if k < values.len() { values[k] } else { None })
}

/// Starts the result at the first replacement: copies what has been read
/// without change, `chars[..pos]`, to `out`.
fn start_output(out: &mut String, chars: &Vec<char>, pos: usize, changed: bool)
    requires
        pos <= chars.len(),
        !changed ==> old(out)@.len() == 0,
    ensures
        final(out)@ == if changed {
            old(out)@
        } else {
            chars@.take(pos as int)
        },
{
    if !changed {
        copy_range(out, chars, 0, pos);
        assert(out@ =~= chars@.take(pos as int));
    }
}

/// A pass over one text, at a place where it can go on. It is made by
/// [`Scanner::new`]; [`Scanner::next_reference`] takes it to the next
/// reference, or to the end of the text and the result.
///
/// The result is written only from the first replacement on: a text in which
/// nothing is replaced is never copied.
pub struct Scanner {
    chars: Vec<char>,
    /// Where the next token starts.
    pos: usize,
    /// Whether a `}` may still follow `pos`.
    closable: bool,
    /// Whether anything has been replaced so far.
    changed: bool,
    out: String,
    values: Ghost<Seq<Option<Seq<char>>>>,
}

/// A pass over one text that has come to a reference and waits to be told
/// what the variable holds; [`Pending::resolve`] lets it go on.
pub struct Pending {
    scanner: Scanner,
    name: String,
    /// Where the reference ends.
    end: usize,
}

/// Where a scanner has come to.
pub enum Step {
    /// To a reference.
    Reference(Pending),
    /// To the end of the text, in which something was replaced: the result.
    Done(String),
    /// To the end of the text, in which nothing was replaced: the text is
    /// its own result.
    Unchanged,
}

impl Scanner {
    #[verifier::type_invariant]
    spec fn inv(&self) -> bool {
        consistent(
            self.chars@,
            self.pos as int,
            self.closable,
            self.changed,
            self.out@,
            self.values@,
        )
    }

    /// The text that is scanned.
    pub closed spec fn text(&self) -> Seq<char> {
        self.chars@
    }

    /// One entry for each token that has been dealt with: what the scanner was
    /// told of a reference, and `None` for every other token.
    pub closed spec fn values(&self) -> Seq<Option<Seq<char>>> {
        self.values@
    }

    /// A scanner at the start of `input`.
    pub fn new(input: &str) -> (scanner: Scanner)
        ensures
            scanner.text() == input@,
            scanner.values() == Seq::<Option<Seq<char>>>::empty(),
    {
        let chars = to_chars(input);
        proof {
            assert(tokens(chars@).skip(0) =~= tokens(chars@));
            assert(chars@.take(0) =~= Seq::<char>::empty());
        }
        Scanner {
            chars,
            pos: 0,
            closable: true,
            changed: false,
            out: String::new(),
            values: Ghost(Seq::empty()),
        }
    }

    /// Goes on to the next reference and stops there, or to the end of the
    /// text, where no reference is left.
    ///
    /// The tokens passed on the way are no references; each of them gets the
    /// value `None`. At the end of the text the step is [`Step::Done`] with
    /// the result where anything was replaced, an escape or a reference that
    /// was given a value, and [`Step::Unchanged`] where nothing was: the text
    /// is then its own result.
    pub fn next_reference(self) -> (step: Step)
        ensures
            self.values().len() <= tokens(self.text()).len(),
            match step {
                Step::Reference(pending) => {
                    &&& pending.text() == self.text()
                    &&& self.values().len() <= pending.index() < tokens(self.text()).len()
                    &&& pending.values() == filled(self.values(), pending.index() as nat)
                    &&& forall|k: int|
                        self.values().len() <= k < pending.index() ==> !((#[trigger] tokens(
                            self.text(),
                        )[k]) is Var)
                    &&& tokens(self.text())[pending.index()] is Var
                    &&& tokens(self.text())[pending.index()]->name == pending.name()
                },
                Step::Done(text) => {
                    &&& forall|k: int|
                        self.values().len() <= k < tokens(self.text()).len() ==> !((
                        #[trigger] tokens(self.text())[k]) is Var)
                    &&& any_replaced(
                        tokens(self.text()),
                        filled(self.values(), tokens(self.text()).len()),
                    )
                    &&& text@ == render(
                        tokens(self.text()),
                        filled(self.values(), tokens(self.text()).len()),
                    )
                },
                Step::Unchanged => {
                    &&& forall|k: int|
                        self.values().len() <= k < tokens(self.text()).len() ==> !((
                        #[trigger] tokens(self.text())[k]) is Var)
                    &&& !any_replaced(
                        tokens(self.text()),
                        filled(self.values(), tokens(self.text()).len()),
                    )
                    &&& self.text() == render(
                        tokens(self.text()),
                        filled(self.values(), tokens(self.text()).len()),
                    )
                },
            },
    {
        proof {
            use_type_invariant(&self);
        }
        let ghost s = self.chars@;
        let ghost before = self.values@;
        let Scanner { chars, pos, closable, changed, out, values } = self;
        let mut pos: usize = pos;
        let mut closable = closable;
        let mut changed = changed;
        let mut out = out;
        let ghost mut values = values@;
        assert(values =~= filled(before, values.len()));
        while pos < chars.len()
            invariant
                chars@ == s,
                s == self.chars@,
                before == self.values@,
                consistent(s, pos as int, closable, changed, out@, values),
                before.len() <= values.len(),
                values == filled(before, values.len()),
                forall|k: int|
                    before.len() <= k < values.len() ==> !((#[trigger] tokens(s)[k]) is Var),
            decreases chars.len() - pos,
        {
            let i: usize = pos;
            let ghost token = token_at(s, i as int);
            let ghost written = out@;
            proof {
                lemma_advance(s, i as int, values, None);
                lemma_token_at(s, i as int);
            }
            let c = chars[i];
            let mut width: usize = 1;
            if c != '$' {
                if changed {
                    out.push(c);
                }
            } else if i + 1 >= chars.len() {
                if changed {
                    out.push('$');
                }
            } else {
                let d = chars[i + 1];
                if d == '{' {
                    let close: usize = if closable {
                        find_from(&chars, '}', i + 2)
                    } else {
                        proof {
                            lemma_gap(s, '}', i + 2);
                        }
                        chars.len()
                    };
                    if close < chars.len() {
                        let name = collect(&chars, i + 2, close);
                        return Step::Reference(
                            Pending {
                                scanner: Scanner {
                                    chars,
                                    pos,
                                    closable,
                                    changed,
                                    out,
                                    values: Ghost(values),
                                },
                                name,
                                end: close + 1,
                            },
                        );
                    }
                    proof {
                        lemma_gap(s, '}', i + 2);
                    }
                    closable = false;
                    if changed {
                        out.push('$');
                        out.push('{');
                    }
                    width = 2;
                } else if d == '$' {
                    start_output(&mut out, &chars, i, changed);
                    changed = true;
                    out.push('$');
                    width = 2;
                } else if is_valid_var_name_char(d) {
                    let end = name_end(&chars, i + 1);
                    let name = collect(&chars, i + 1, end);
                    return Step::Reference(
                        Pending {
                            scanner: Scanner {
                                chars,
                                pos,
                                closable,
                                changed,
                                out,
                                values: Ghost(values),
                            },
                            name,
                            end,
                        },
                    );
                } else {
                    if changed {
                        out.push('$');
                    }
                }
            }
            pos = i + width;
            proof {
                let sofar = render(tokens(s).take(values.len() as int), values);
                if changed {
                    assert(out@ =~= sofar + token.expansion(None));
                } else {
                    assert(token.expansion(None) == token.source());
                    assert(s.take(i as int) + s.subrange(i as int, i + width) =~= s.take(
                        i + width,
                    ));
                }
                assert(values.push(None) =~= filled(before, values.len() + 1));
                values = values.push(None);
            }
        }
        proof {
            assert(tokens_from(s, pos as int).len() == 0);
            assert(tokens(s).take(values.len() as int) =~= tokens(s));
            assert(s.take(pos as int) =~= s);
        }
        if changed {
            Step::Done(out)
        } else {
            Step::Unchanged
        }
    }
}

impl Pending {
    #[verifier::type_invariant]
    spec fn inv(&self) -> bool {
        let s = self.scanner.chars@;
        let pos = self.scanner.pos as int;
        &&& consistent(
            s,
            pos,
            self.scanner.closable,
            self.scanner.changed,
            self.scanner.out@,
            self.scanner.values@,
        )
        &&& pos < s.len()
        &&& token_at(s, pos) is Var
        &&& token_at(s, pos)->name == self.name@
        &&& self.end == pos + token_at(s, pos).width()
    }

    /// The text that is scanned.
    pub closed spec fn text(&self) -> Seq<char> {
        self.scanner.chars@
    }

    /// One entry for each token before the reference.
    pub closed spec fn values(&self) -> Seq<Option<Seq<char>>> {
        self.scanner.values@
    }

    /// Which of the text's tokens the reference is.
    pub open spec fn index(&self) -> int {
        self.values().len() as int
    }

    /// The name of the variable that the reference names.
    pub closed spec fn name(&self) -> Seq<char> {
        self.name@
    }

    /// The name of the variable to look up.
    pub fn wanted(&self) -> (name: &str)
        ensures
            name@ == self.name(),
    {
        self.name.as_str()
    }

    /// Gives the scan up, and hands out the name of the variable.
    pub fn into_name(self) -> (name: String)
        ensures
            name@ == self.name(),
    {
        self.name
    }

    /// Tells the scanner what the variable holds, `Some` text to put in the
    /// reference's place or `None` to leave it as written, and lets it go on
    /// behind the reference.
    pub fn resolve(self, value: Option<String>) -> (scanner: Scanner)
        ensures
            scanner.text() == self.text(),
            scanner.values() == self.values().push(text_of(value)),
    {
        proof {
            use_type_invariant(&self);
        }
        let Pending { scanner, name, end } = self;
        let Scanner { chars, pos, closable, changed, out, values } = scanner;
        let mut out = out;
        let mut changed = changed;
        proof {
            lemma_advance(chars@, pos as int, values@, text_of(value));
            lemma_token_at(chars@, pos as int);
            assert(chars@.take(pos as int) + chars@.subrange(pos as int, end as int)
                =~= chars@.take(end as int));
        }
        match value {
            Some(text) => {
                start_output(&mut out, &chars, pos, changed);
                changed = true;
                out.append(text.as_str());
            },
            None => {
                if changed {
                    copy_range(&mut out, &chars, pos, end);
                }
            },
        }
        Scanner {
            chars,
            pos: end,
            closable,
            changed,
            out,
            values: Ghost(values@.push(text_of(value))),
        }
    }
}

/// The characters `chars[from..to]` as a string.
fn collect(chars: &Vec<char>, from: usize, to: usize) -> (text: String)
    requires
        from <= to <= chars.len(),
    ensures
        text@ == chars@.subrange(from as int, to as int),
{
    let mut text = String::new();
    copy_range(&mut text, chars, from, to);
    assert(text@ =~= chars@.subrange(from as int, to as int));
    text
}

} // verus!
