//! Conditions of `{{#if}}` and `{{#elseif}}` blocks.
//!
//! A condition compares environment values of the brand with words:
//! `name == value` or `name != value`, combined with `&&` (binding tighter)
//! and `||`, and grouped with parentheses. Words are runs of characters other
//! than blanks, parentheses and the operator characters `=`, `!`, `&`, `|`.
use vstd::prelude::*;
use crate::config::StringTable;
use crate::error::{Error, ErrorView};
use vstd::string::*;
use crate::template::{is_blank, is_blank_char};

verus! {

/// A token of a condition.
pub enum CondToken {
    Word(Seq<char>),
    Equal,
    NotEqual,
    And,
    Or,
    Open,
    Close,
}

/// A character that belongs to a word.
pub open spec fn is_word_char(c: char) -> bool {
    !is_blank(c) && c != '(' && c != ')' && c != '=' && c != '!' && c != '&' && c != '|'
}

/// The end of the word that starts at `pos`.
pub open spec fn word_end(c: Seq<char>, pos: int) -> int
    decreases c.len() - pos,
{
    if 0 <= pos < c.len() && is_word_char(c[pos]) {
        word_end(c, pos + 1)
    } else {
        pos
    }
}

/// The word that starts at `pos` reaches at least one character further.
pub proof fn lemma_word_end(c: Seq<char>, pos: int)
    requires
        0 <= pos <= c.len(),
    ensures
        pos <= word_end(c, pos) <= c.len(),
        0 <= pos < c.len() && is_word_char(c[pos]) ==> word_end(c, pos) > pos,
    decreases c.len() - pos,
{
    if 0 <= pos < c.len() && is_word_char(c[pos]) {
        lemma_word_end(c, pos + 1);
    }
}

/// `tok` put in front of a successful tokenization.
pub open spec fn cons_token(tok: CondToken, rest: Option<Seq<CondToken>>) -> Option<Seq<CondToken>> {
    match rest {
        Some(r) => Some(seq![tok] + r),
        None => None,
    }
}

/// The tokens of condition `c` from position `pos` on; `None` when a
/// character cannot start a token (a lone `=`, `!`, `&` or `|`).
pub open spec fn cond_tokens(c: Seq<char>, pos: int) -> Option<Seq<CondToken>>
    decreases c.len() - pos,
{
    if pos < 0 || pos >= c.len() {
        Some(Seq::empty())
    } else if is_blank(c[pos]) {
        cond_tokens(c, pos + 1)
    } else if c[pos] == '(' {
        cons_token(CondToken::Open, cond_tokens(c, pos + 1))
    } else if c[pos] == ')' {
        cons_token(CondToken::Close, cond_tokens(c, pos + 1))
    } else if c[pos] == '=' || c[pos] == '!' || c[pos] == '&' || c[pos] == '|' {
        if pos + 1 < c.len() && c[pos] == '=' && c[pos + 1] == '=' {
            cons_token(CondToken::Equal, cond_tokens(c, pos + 2))
        } else if pos + 1 < c.len() && c[pos] == '!' && c[pos + 1] == '=' {
            cons_token(CondToken::NotEqual, cond_tokens(c, pos + 2))
        } else if pos + 1 < c.len() && c[pos] == '&' && c[pos + 1] == '&' {
            cons_token(CondToken::And, cond_tokens(c, pos + 2))
        } else if pos + 1 < c.len() && c[pos] == '|' && c[pos + 1] == '|' {
            cons_token(CondToken::Or, cond_tokens(c, pos + 2))
        } else {
            None
        }
    } else {
        let e = word_end(c, pos);
        proof {
            lemma_word_end(c, pos);
        }
        cons_token(CondToken::Word(c.subrange(pos, e)), cond_tokens(c, e))
    }
}

/// The innermost group with `v` joined to its current `&&` chain.
pub open spec fn with_operand(groups: Seq<(bool, bool)>, v: bool) -> Seq<(bool, bool)> {
    groups.update(groups.len() - 1, (groups.last().0, groups.last().1 && v))
}

/// The value of a group: its closed `||` alternatives or its open `&&` chain.
pub open spec fn group_value(g: (bool, bool)) -> bool {
    g.0 || g.1
}

/// The value of tokens `ts` from `i` on, read left to right. Each open group
/// holds the disjunction of its finished alternatives and the conjunction of
/// the current one; `expect` says whether an operand (a comparison or an
/// opening parenthesis) must come next. Any other token sequence is a
/// malformed condition `c`; a comparison with a name the environment lacks
/// fails naming it.
pub open spec fn eval_tokens(
    ts: Seq<CondToken>,
    i: int,
    groups: Seq<(bool, bool)>,
    expect: bool,
    env: Map<Seq<char>, Seq<char>>,
    c: Seq<char>,
) -> Result<bool, ErrorView>
    decreases ts.len() - i,
{
    if i < 0 || i >= ts.len() {
        if !expect && groups.len() == 1 {
            Ok(group_value(groups[0]))
        } else {
            Err(ErrorView::MalformedCondition(c))
        }
    } else if groups.len() == 0 {
        Err(ErrorView::MalformedCondition(c))
    } else {
        match ts[i] {
            CondToken::Word(name) => {
                if expect && i + 2 < ts.len() && (ts[i + 1] is Equal || ts[i + 1] is NotEqual)
                    && ts[i + 2] is Word {
                    if !env.contains_key(name) {
                        Err(ErrorView::UnknownEnvKey(name))
                    } else {
                        let same = env[name] == ts[i + 2]->Word_0;
                        let v = if ts[i + 1] is Equal {
                            same
                        } else {
                            !same
                        };
                        eval_tokens(ts, i + 3, with_operand(groups, v), false, env, c)
                    }
                } else {
                    Err(ErrorView::MalformedCondition(c))
                }
            },
            CondToken::Open => if expect {
                eval_tokens(ts, i + 1, groups.push((false, true)), true, env, c)
            } else {
                Err(ErrorView::MalformedCondition(c))
            },
            CondToken::Close => if !expect && groups.len() > 1 {
                eval_tokens(
                    ts,
                    i + 1,
                    with_operand(groups.drop_last(), group_value(groups.last())),
                    false,
                    env,
                    c,
                )
            } else {
                Err(ErrorView::MalformedCondition(c))
            },
            CondToken::And => if !expect {
                eval_tokens(ts, i + 1, groups, true, env, c)
            } else {
                Err(ErrorView::MalformedCondition(c))
            },
            CondToken::Or => if !expect {
                eval_tokens(
                    ts,
                    i + 1,
                    groups.update(groups.len() - 1, (group_value(groups.last()), true)),
                    true,
                    env,
                    c,
                )
            } else {
                Err(ErrorView::MalformedCondition(c))
            },
            _ => Err(ErrorView::MalformedCondition(c)),
        }
    }
}

/// The value of condition `c` in environment `env`.
pub open spec fn condition_value(c: Seq<char>, env: Map<Seq<char>, Seq<char>>) -> Result<bool, ErrorView> {
    match cond_tokens(c, 0) {
        None => Err(ErrorView::MalformedCondition(c)),
        Some(ts) => eval_tokens(ts, 0, seq![(false, true)], true, env, c),
    }
}

/// The comparison or parenthesized group of alternatives that starts at
/// token `i`, with its value and the position after it. A comparison
/// `name == word` or `name != word` fails naming `name` when the environment
/// lacks it; anything else that is not an operand makes condition `c`
/// malformed.
pub open spec fn operand_value(
    ts: Seq<CondToken>,
    i: int,
    env: Map<Seq<char>, Seq<char>>,
    c: Seq<char>,
) -> Result<(bool, int), ErrorView>
    decreases ts.len() - i, 0int,
{
    if i < 0 || i >= ts.len() {
        Err(ErrorView::MalformedCondition(c))
    } else {
        match ts[i] {
            CondToken::Word(name) => {
                if i + 2 < ts.len() && (ts[i + 1] is Equal || ts[i + 1] is NotEqual)
                    && ts[i + 2] is Word {
                    if !env.contains_key(name) {
                        Err(ErrorView::UnknownEnvKey(name))
                    } else {
                        let same = env[name] == ts[i + 2]->Word_0;
                        Ok(
                            (
                                if ts[i + 1] is Equal {
                                    same
                                } else {
                                    !same
                                },
                                i + 3,
                            ),
                        )
                    }
                } else {
                    Err(ErrorView::MalformedCondition(c))
                }
            },
            CondToken::Open => match alternatives_value(ts, i + 1, false, env, c) {
                Ok((v, k)) => if 0 <= k < ts.len() && ts[k] is Close {
                    Ok((v, k + 1))
                } else {
                    Err(ErrorView::MalformedCondition(c))
                },
                Err(e) => Err(e),
            },
            _ => Err(ErrorView::MalformedCondition(c)),
        }
    }
}

/// The operands joined by `&&` from token `i` on, conjoined with `acc`,
/// with the position after the last of them.
pub open spec fn conjunction_value(
    ts: Seq<CondToken>,
    i: int,
    acc: bool,
    env: Map<Seq<char>, Seq<char>>,
    c: Seq<char>,
) -> Result<(bool, int), ErrorView>
    decreases ts.len() - i, 1int,
{
    match operand_value(ts, i, env, c) {
        Err(e) => Err(e),
        Ok((v, j)) => if i < j < ts.len() && ts[j] is And {
            conjunction_value(ts, j + 1, acc && v, env, c)
        } else {
            Ok((acc && v, j))
        },
    }
}

/// The conjunctions joined by `||` from token `i` on, disjoined with `acc`,
/// with the position after the last of them.
pub open spec fn alternatives_value(
    ts: Seq<CondToken>,
    i: int,
    acc: bool,
    env: Map<Seq<char>, Seq<char>>,
    c: Seq<char>,
) -> Result<(bool, int), ErrorView>
    decreases ts.len() - i, 2int,
{
    match conjunction_value(ts, i, true, env, c) {
        Err(e) => Err(e),
        Ok((v, j)) => if i < j < ts.len() && ts[j] is Or {
            alternatives_value(ts, j + 1, acc || v, env, c)
        } else {
            Ok((acc || v, j))
        },
    }
}

/// The meaning of condition `c` by its grammar: alternatives (`||`) of
/// conjunctions (`&&`) of comparisons and parenthesized alternatives, which
/// must take up every token.
pub open spec fn condition_meaning(c: Seq<char>, env: Map<Seq<char>, Seq<char>>) -> Result<
    bool,
    ErrorView,
> {
    match cond_tokens(c, 0) {
        None => Err(ErrorView::MalformedCondition(c)),
        Some(ts) => match alternatives_value(ts, 0, false, env, c) {
            Err(e) => Err(e),
            Ok((v, k)) => if k == ts.len() {
                Ok(v)
            } else {
                Err(ErrorView::MalformedCondition(c))
            },
        },
    }
}

/// After a group of alternatives, where no `&&` or `||` follows, reading on
/// depends on the group only through its value.
proof fn lemma_after_group(
    ts: Seq<CondToken>,
    j: int,
    g: Seq<(bool, bool)>,
    x: (bool, bool),
    y: (bool, bool),
    env: Map<Seq<char>, Seq<char>>,
    c: Seq<char>,
)
    requires
        0 <= j,
        group_value(x) == group_value(y),
        j >= ts.len() || !(ts[j] is And || ts[j] is Or),
    ensures
        eval_tokens(ts, j, g.push(x), false, env, c) == eval_tokens(ts, j, g.push(y), false, env, c),
{
    assert(g.push(x).drop_last() =~= g);
    assert(g.push(y).drop_last() =~= g);
}

/// Reading an operand from a state whose innermost group is `(a, b)`.
proof fn lemma_operand(
    ts: Seq<CondToken>,
    i: int,
    g: Seq<(bool, bool)>,
    a: bool,
    b: bool,
    env: Map<Seq<char>, Seq<char>>,
    c: Seq<char>,
)
    requires
        0 <= i,
    ensures
        match operand_value(ts, i, env, c) {
            Ok((v, j)) => i < j <= ts.len() && eval_tokens(ts, i, g.push((a, b)), true, env, c)
                == eval_tokens(ts, j, g.push((a, b && v)), false, env, c),
            Err(e) => eval_tokens(ts, i, g.push((a, b)), true, env, c) == Err::<bool, ErrorView>(e),
        },
    decreases ts.len() - i, 0int,
{
    if i < ts.len() {
        match ts[i] {
            CondToken::Word(name) => {
                assert(with_operand(g.push((a, b)), true) =~= g.push((a, b && true)));
                assert(with_operand(g.push((a, b)), false) =~= g.push((a, b && false)));
            },
            CondToken::Open => {
                let inner = g.push((a, b));
                lemma_alternatives(ts, i + 1, inner, false, env, c);
                match alternatives_value(ts, i + 1, false, env, c) {
                    Ok((v, k)) => {
                        assert(inner.push((false, v)).drop_last() =~= inner);
                        assert(with_operand(inner, v) =~= g.push((a, b && v)));
                    },
                    Err(e) => {},
                }
            },
            _ => {},
        }
    }
}

/// Reading a conjunction from a state whose innermost group is `(a, b)`.
proof fn lemma_conjunction(
    ts: Seq<CondToken>,
    i: int,
    g: Seq<(bool, bool)>,
    a: bool,
    b: bool,
    env: Map<Seq<char>, Seq<char>>,
    c: Seq<char>,
)
    requires
        0 <= i,
    ensures
        match conjunction_value(ts, i, b, env, c) {
            Ok((v, j)) => i < j <= ts.len() && (j >= ts.len() || !(ts[j] is And)) && eval_tokens(
                ts,
                i,
                g.push((a, b)),
                true,
                env,
                c,
            ) == eval_tokens(ts, j, g.push((a, v)), false, env, c),
            Err(e) => eval_tokens(ts, i, g.push((a, b)), true, env, c) == Err::<bool, ErrorView>(e),
        },
    decreases ts.len() - i, 1int,
{
    lemma_operand(ts, i, g, a, b, env, c);
    match operand_value(ts, i, env, c) {
        Ok((v, j)) => {
            if i < j < ts.len() && ts[j] is And {
                lemma_conjunction(ts, j + 1, g, a, b && v, env, c);
            }
        },
        Err(e) => {},
    }
}

/// Reading alternatives from a state whose innermost group is `(acc, true)`.
proof fn lemma_alternatives(
    ts: Seq<CondToken>,
    i: int,
    g: Seq<(bool, bool)>,
    acc: bool,
    env: Map<Seq<char>, Seq<char>>,
    c: Seq<char>,
)
    requires
        0 <= i,
    ensures
        match alternatives_value(ts, i, acc, env, c) {
            Ok((v, k)) => i < k <= ts.len() && (k >= ts.len() || !(ts[k] is And || ts[k] is Or))
                && eval_tokens(ts, i, g.push((acc, true)), true, env, c) == eval_tokens(
                ts,
                k,
                g.push((false, v)),
                false,
                env,
                c,
            ),
            Err(e) => eval_tokens(ts, i, g.push((acc, true)), true, env, c) == Err::<bool, ErrorView>(
                e,
            ),
        },
    decreases ts.len() - i, 2int,
{
    lemma_conjunction(ts, i, g, acc, true, env, c);
    match conjunction_value(ts, i, true, env, c) {
        Ok((v, j)) => {
            if i < j < ts.len() && ts[j] is Or {
                assert(g.push((acc, v)).update(g.len() as int, (group_value((acc, v)), true))
                    =~= g.push((acc || v, true)));
                lemma_alternatives(ts, j + 1, g, acc || v, env, c);
            } else {
                lemma_after_group(ts, j, g, (acc, v), (false, acc || v), env, c);
            }
        },
        Err(e) => {},
    }
}

/// Conditions mean what their grammar says: the left-to-right reading of a
/// condition gives the value of its alternatives of conjunctions of
/// comparisons and parenthesized groups, and fails as the grammar does.
pub proof fn lemma_condition_grammar(c: Seq<char>, env: Map<Seq<char>, Seq<char>>)
    ensures
        condition_value(c, env) == condition_meaning(c, env),
{
    if let Some(ts) = cond_tokens(c, 0) {
        let g = Seq::<(bool, bool)>::empty();
        assert(seq![(false, true)] =~= g.push((false, true)));
        lemma_alternatives(ts, 0, g, false, env, c);
    }
}

/// A token of a condition, its words given by their bounds in the condition.
#[derive(Debug, Clone, Copy)]
pub enum Tok {
    Word(usize, usize),
    Equal,
    NotEqual,
    And,
    Or,
    Open,
    Close,
}

/// The token that `t` stands for in condition `c`.
pub open spec fn tok_view(c: Seq<char>, t: Tok) -> CondToken {
    match t {
        Tok::Word(s, e) => CondToken::Word(c.subrange(s as int, e as int)),
        Tok::Equal => CondToken::Equal,
        Tok::NotEqual => CondToken::NotEqual,
        Tok::And => CondToken::And,
        Tok::Or => CondToken::Or,
        Tok::Open => CondToken::Open,
        Tok::Close => CondToken::Close,
    }
}

/// The tokens that `v` stands for in condition `c`.
pub open spec fn toks_view(c: Seq<char>, v: Seq<Tok>) -> Seq<CondToken> {
    v.map_values(|t: Tok| tok_view(c, t))
}

/// The words of `v` lie within a condition of length `n`.
pub open spec fn words_within(v: Seq<Tok>, n: int) -> bool {
    forall|k: int| 0 <= k < v.len() ==> (#[trigger] v[k] matches Tok::Word(s, e) ==> s <= e <= n)
}

/// `p` put in front of a successful tokenization.
pub open spec fn prepend_tokens(p: Seq<CondToken>, r: Option<Seq<CondToken>>) -> Option<Seq<CondToken>> {
    match r {
        Some(x) => Some(p + x),
        None => None,
    }
}

/// The value of a group.
fn group_value_exec(g: (bool, bool)) -> (r: bool)
    ensures
        r == group_value(g),
{
    g.0 || g.1
}

/// Whether `c` belongs to a word.
fn is_word_char_exec(c: char) -> (r: bool)
    ensures
        r == is_word_char(c),
{
    !is_blank_char(c) && c != '(' && c != ')' && c != '=' && c != '!' && c != '&' && c != '|'
}

/// The tokens of a condition.
fn lex_condition(c: &Vec<char>) -> (r: Option<Vec<Tok>>)
    ensures
        match r {
            None => cond_tokens(c@, 0) is None,
            Some(v) => cond_tokens(c@, 0) == Some(toks_view(c@, v@)) && words_within(
                v@,
                c@.len() as int,
            ),
        },
{
    let n = c.len();
    let mut out: Vec<Tok> = Vec::new();
    let mut pos: usize = 0;
    assert(toks_view(c@, out@) =~= Seq::<CondToken>::empty());
    proof {
        match cond_tokens(c@, 0) {
            Some(x) => assert(Seq::<CondToken>::empty() + x =~= x),
            None => {},
        }
    }
    while pos < n
        invariant
            n == c@.len(),
            pos <= n,
            cond_tokens(c@, 0) == prepend_tokens(toks_view(c@, out@), cond_tokens(c@, pos as int)),
            words_within(out@, n as int),
        decreases n - pos,
    {
        let ch = c[pos];
        let ghost before = out@;
        let tok: Tok;
        let next: usize;
        if is_blank_char(ch) {
            pos = pos + 1;
            continue;
        } else if ch == '(' {
            tok = Tok::Open;
            next = pos + 1;
        } else if ch == ')' {
            tok = Tok::Close;
            next = pos + 1;
        } else if ch == '=' || ch == '!' || ch == '&' || ch == '|' {
            if pos + 1 < n && ch == '=' && c[pos + 1] == '=' {
                tok = Tok::Equal;
            } else if pos + 1 < n && ch == '!' && c[pos + 1] == '=' {
                tok = Tok::NotEqual;
            } else if pos + 1 < n && ch == '&' && c[pos + 1] == '&' {
                tok = Tok::And;
            } else if pos + 1 < n && ch == '|' && c[pos + 1] == '|' {
                tok = Tok::Or;
            } else {
                return None;
            }
            next = pos + 2;
        } else {
            let mut e = pos;
            while e < n && is_word_char_exec(c[e])
                invariant
                    pos <= e <= n,
                    n == c@.len(),
                    word_end(c@, pos as int) == word_end(c@, e as int),
                decreases n - e,
            {
                e = e + 1;
            }
            proof {
                lemma_word_end(c@, pos as int);
            }
            tok = Tok::Word(pos, e);
            next = e;
        }
        out.push(tok);
        proof {
            assert(cond_tokens(c@, pos as int) == cons_token(
                tok_view(c@, tok),
                cond_tokens(c@, next as int),
            ));
            assert(toks_view(c@, out@) =~= toks_view(c@, before).push(tok_view(c@, tok)));
            match cond_tokens(c@, next as int) {
                Some(x) => assert(toks_view(c@, before) + (seq![tok_view(c@, tok)] + x)
                    =~= toks_view(c@, out@) + x),
                None => {},
            }
            assert forall|k: int| 0 <= k < out@.len() implies (#[trigger] out@[k] matches Tok::Word(
                s,
                e,
            ) ==> s <= e <= n) by {
                if k < before.len() {
                    assert(out@[k] == before[k]);
                }
            }
        }
        pos = next;
    }
    proof {
        match cond_tokens(c@, 0) {
            Some(x) => assert(toks_view(c@, out@) + Seq::<CondToken>::empty() =~= toks_view(
                c@,
                out@,
            )),
            None => {},
        }
    }
    Some(out)
}

/// The value of a condition, given as the characters `c` found in `text`
/// from position `base` on, in the environment `env`.
pub fn eval_condition(text: &str, c: &Vec<char>, base: usize, env: &StringTable) -> (r: Result<
    bool,
    Error,
>)
    requires
        base + c@.len() <= text@.len(),
        c@ == text@.subrange(base as int, base + c@.len()),
    ensures
        match r {
            Ok(b) => condition_value(c@, env@) == Ok::<bool, ErrorView>(b),
            Err(e) => condition_value(c@, env@) == Err::<bool, ErrorView>(e@),
        },
        match r {
            Ok(b) => condition_meaning(c@, env@) == Ok::<bool, ErrorView>(b),
            Err(e) => condition_meaning(c@, env@) == Err::<bool, ErrorView>(e@),
        },
{
    proof {
        lemma_condition_grammar(c@, env@);
    }
    let n = c.len();
    let text_len = text.unicode_len();
    let malformed = Error::MalformedCondition(text.substring_char(base, base + n).to_owned());
    assert(malformed@ == ErrorView::MalformedCondition(c@));
    let toks = match lex_condition(c) {
        None => return Err(malformed),
        Some(v) => v,
    };
    let ghost ts = toks_view(c@, toks@);
    let mut groups: Vec<(bool, bool)> = vec![(false, true)];
    assert(groups@ =~= seq![(false, true)]);
    let mut expect = true;
    let mut i: usize = 0;
    while i < toks.len()
        invariant
            n == c@.len(),
            text_len == text@.len(),
            base + n <= text@.len(),
            c@ == text@.subrange(base as int, base + n),
            ts == toks_view(c@, toks@),
            words_within(toks@, n as int),
            malformed@ == ErrorView::MalformedCondition(c@),
            i <= toks@.len(),
            condition_value(c@, env@) == eval_tokens(ts, i as int, groups@, expect, env@, c@),
            condition_value(c@, env@) == condition_meaning(c@, env@),
        decreases toks@.len() - i,
    {
        if groups.len() == 0 {
            return Err(malformed);
        }
        let last = groups.len() - 1;
        let g = groups[last];
        assert(groups@.last() == g);
        let tk = toks[i];
        assert(ts[i as int] == tok_view(c@, tk));
        let ghost before = groups@;
        match tk {
            Tok::Word(s, e) => {
                if !(expect && toks.len() - i > 2) {
                    return Err(malformed);
                }
                let op = toks[i + 1];
                let rhs = toks[i + 2];
                assert(ts[i + 1] == tok_view(c@, op));
                assert(ts[i + 2] == tok_view(c@, rhs));
                let equal = match op {
                    Tok::Equal => true,
                    Tok::NotEqual => false,
                    _ => return Err(malformed),
                };
                let (s2, e2) = match rhs {
                    Tok::Word(s2, e2) => (s2, e2),
                    _ => return Err(malformed),
                };
                assert(toks@[i as int] matches Tok::Word(s, e) ==> s <= e <= n);
                assert(toks@[i + 2] matches Tok::Word(s2, e2) ==> s2 <= e2 <= n);
                let name = text.substring_char(base + s, base + e);
                assert(name@ =~= c@.subrange(s as int, e as int));
                let value = match env.get(name) {
                    None => return Err(Error::UnknownEnvKey(name.to_owned())),
                    Some(v) => v,
                };
                let word = text.substring_char(base + s2, base + e2).to_owned();
                assert(word@ =~= c@.subrange(s2 as int, e2 as int));
                let same = *value == word;
                let v = if equal {
                    same
                } else {
                    !same
                };
                groups.set(last, (g.0, g.1 && v));
                assert(groups@ =~= with_operand(before, v));
                expect = false;
                i = i + 3;
            },
            Tok::Open => {
                if !expect {
                    return Err(malformed);
                }
                groups.push((false, true));
                i = i + 1;
            },
            Tok::Close => {
                if expect || groups.len() <= 1 {
                    return Err(malformed);
                }
                let inner = group_value_exec(g);
                groups.pop();
                let outer = groups.len() - 1;
                let h = groups[outer];
                groups.set(outer, (h.0, h.1 && inner));
                assert(groups@ =~= with_operand(before.drop_last(), group_value(before.last())));
                i = i + 1;
            },
            Tok::And => {
                if expect {
                    return Err(malformed);
                }
                expect = true;
                i = i + 1;
            },
            Tok::Or => {
                if expect {
                    return Err(malformed);
                }
                groups.set(last, (group_value_exec(g), true));
                assert(groups@ =~= before.update(before.len() - 1, (group_value(before.last()), true)));
                expect = true;
                i = i + 1;
            },
            _ => {
                return Err(malformed);
            },
        }
    }
    if !expect && groups.len() == 1 {
        Ok(group_value_exec(groups[0]))
    } else {
        Err(malformed)
    }
}

} // verus!
