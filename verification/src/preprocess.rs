//! Preprocessing of copied files: string references and conditional blocks.
//!
//! A file may hold `{{#str key}}` references, expanded as in
//! [`crate::template`], and conditional blocks
//! `{{#if cond}}` … `{{#elseif cond}}` … `{{#else}}` … `{{#endif}}`, which may
//! nest. Of a block, the text of the first branch whose condition holds is
//! kept (the `{{#else}}` branch when none holds) and the rest is dropped. A
//! block directive takes one line break right after it along with it.
//! Conditions are read (see [`crate::condition`]) and strings looked up only
//! where they decide the output, that is outside dropped text and, in a
//! block, until a branch has been taken. Any other `{{#` is plain text.
use vstd::prelude::*;
use vstd::string::*;
use crate::condition::{condition_value, eval_condition};
use crate::config::BrandConfig;
use crate::error::{Error, ErrorView, string_result_view};
use crate::template::{
    chars_of,
    close_marker,
    find_from,
    find_marker,
    lemma_find_from,
    marker_at,
    occurs_at,
    open_marker,
    prepend,
    trim_blanks,
    trim_range,
};

verus! {

/// An open conditional block.
#[derive(Debug, Clone, Copy, PartialEq, Eq, Structural)]
pub struct Frame {
    /// Whether the text around the block is kept.
    pub enclosing_active: bool,
    /// Whether a branch of the block has been taken.
    pub taken: bool,
    /// Whether the block is in its `{{#else}}` branch.
    pub in_else: bool,
    /// Whether the text of the current branch is kept.
    pub active: bool,
}

/// The characters that open an `{{#if` directive.
pub open spec fn if_marker() -> Seq<char> {
    seq!['{', '{', '#', 'i', 'f', ' ']
}

/// The characters that open an `{{#elseif` directive.
pub open spec fn elseif_marker() -> Seq<char> {
    seq!['{', '{', '#', 'e', 'l', 's', 'e', 'i', 'f', ' ']
}

/// The `{{#else}}` directive.
pub open spec fn else_marker() -> Seq<char> {
    seq!['{', '{', '#', 'e', 'l', 's', 'e', '}', '}']
}

/// The `{{#endif}}` directive.
pub open spec fn endif_marker() -> Seq<char> {
    seq!['{', '{', '#', 'e', 'n', 'd', 'i', 'f', '}', '}']
}

/// Whether text at the current point is kept.
pub open spec fn stack_active(stack: Seq<Frame>) -> bool {
    stack.len() == 0 || stack.last().active
}

/// Position `e`, moved past one line break if one stands there.
pub open spec fn skip_newline(t: Seq<char>, e: int) -> int {
    if 0 <= e < t.len() && t[e] == '\n' {
        e + 1
    } else {
        e
    }
}

/// The output of preprocessing `t` from position `pos` on, inside the open
/// blocks `stack`. A directive that is not closed by `}}`, an
/// `{{#elseif}}` or `{{#else}}` outside a block or after its `{{#else}}`, an
/// `{{#endif}}` outside a block, or a block still open at the end makes the
/// whole text malformed.
pub open spec fn preprocess_from(
    t: Seq<char>,
    pos: int,
    stack: Seq<Frame>,
    strings: Map<Seq<char>, Seq<char>>,
    env: Map<Seq<char>, Seq<char>>,
) -> Result<Seq<char>, ErrorView>
    decreases t.len() - pos,
{
    if pos < 0 || pos >= t.len() {
        if stack.len() == 0 {
            Ok(Seq::empty())
        } else {
            Err(ErrorView::MalformedTemplate(t))
        }
    } else if occurs_at(t, open_marker(), pos) {
        match find_from(t, close_marker(), pos + 7) {
            None => Err(ErrorView::MalformedTemplate(t)),
            Some(j) => {
                proof {
                    lemma_find_from(t, close_marker(), pos + 7);
                }
                let key = trim_blanks(t.subrange(pos + 7, j));
                if !stack_active(stack) {
                    preprocess_from(t, j + 2, stack, strings, env)
                } else if !strings.contains_key(key) {
                    Err(ErrorView::UnknownStringKey(key))
                } else {
                    prepend(strings[key], preprocess_from(t, j + 2, stack, strings, env))
                }
            },
        }
    } else if occurs_at(t, if_marker(), pos) {
        match find_from(t, close_marker(), pos + 6) {
            None => Err(ErrorView::MalformedTemplate(t)),
            Some(j) => {
                proof {
                    lemma_find_from(t, close_marker(), pos + 6);
                }
                let cur = stack_active(stack);
                let cond = if cur {
                    condition_value(t.subrange(pos + 6, j), env)
                } else {
                    Ok(false)
                };
                match cond {
                    Err(e) => Err(e),
                    Ok(v) => preprocess_from(
                        t,
                        skip_newline(t, j + 2),
                        stack.push(
                            Frame { enclosing_active: cur, taken: v, in_else: false, active: v },
                        ),
                        strings,
                        env,
                    ),
                }
            },
        }
    } else if occurs_at(t, elseif_marker(), pos) {
        match find_from(t, close_marker(), pos + 10) {
            None => Err(ErrorView::MalformedTemplate(t)),
            Some(j) => {
                proof {
                    lemma_find_from(t, close_marker(), pos + 10);
                }
                if stack.len() == 0 || stack.last().in_else {
                    Err(ErrorView::MalformedTemplate(t))
                } else {
                    let top = stack.last();
                    let live = top.enclosing_active && !top.taken;
                    let cond = if live {
                        condition_value(t.subrange(pos + 10, j), env)
                    } else {
                        Ok(false)
                    };
                    match cond {
                        Err(e) => Err(e),
                        Ok(v) => preprocess_from(
                            t,
                            skip_newline(t, j + 2),
                            stack.drop_last().push(
                                Frame {
                                    enclosing_active: top.enclosing_active,
                                    taken: top.taken || v,
                                    in_else: false,
                                    active: v,
                                },
                            ),
                            strings,
                            env,
                        ),
                    }
                }
            },
        }
    } else if occurs_at(t, else_marker(), pos) {
        if stack.len() == 0 || stack.last().in_else {
            Err(ErrorView::MalformedTemplate(t))
        } else {
            let top = stack.last();
            preprocess_from(
                t,
                skip_newline(t, pos + 9),
                stack.drop_last().push(
                    Frame {
                        enclosing_active: top.enclosing_active,
                        taken: true,
                        in_else: true,
                        active: top.enclosing_active && !top.taken,
                    },
                ),
                strings,
                env,
            )
        }
    } else if occurs_at(t, endif_marker(), pos) {
        if stack.len() == 0 {
            Err(ErrorView::MalformedTemplate(t))
        } else {
            preprocess_from(t, skip_newline(t, pos + 10), stack.drop_last(), strings, env)
        }
    } else {
        prepend(
            if stack_active(stack) {
                seq![t[pos]]
            } else {
                Seq::empty()
            },
            preprocess_from(t, pos + 1, stack, strings, env),
        )
    }
}

/// The preprocessed text `t`, with the brand's strings and environment values.
pub open spec fn preprocessed(
    t: Seq<char>,
    strings: Map<Seq<char>, Seq<char>>,
    env: Map<Seq<char>, Seq<char>>,
) -> Result<Seq<char>, ErrorView> {
    preprocess_from(t, 0, Seq::empty(), strings, env)
}

/// Text without any `#` holds no directive and is kept as it is.
pub proof fn lemma_plain_text_kept(
    t: Seq<char>,
    pos: int,
    strings: Map<Seq<char>, Seq<char>>,
    env: Map<Seq<char>, Seq<char>>,
)
    requires
        0 <= pos <= t.len(),
        forall|i: int| 0 <= i < t.len() ==> t[i] != '#',
    ensures
        preprocess_from(t, pos, Seq::empty(), strings, env) == Ok::<Seq<char>, ErrorView>(
            t.subrange(pos, t.len() as int),
        ),
    decreases t.len() - pos,
{
    if pos < t.len() {
        assert(!occurs_at(t, open_marker(), pos)) by {
            if occurs_at(t, open_marker(), pos) {
                assert(t.subrange(pos, pos + 7)[2] == t[pos + 2]);
            }
        }
        assert(!occurs_at(t, if_marker(), pos)) by {
            if occurs_at(t, if_marker(), pos) {
                assert(t.subrange(pos, pos + 6)[2] == t[pos + 2]);
            }
        }
        assert(!occurs_at(t, elseif_marker(), pos)) by {
            if occurs_at(t, elseif_marker(), pos) {
                assert(t.subrange(pos, pos + 10)[2] == t[pos + 2]);
            }
        }
        assert(!occurs_at(t, else_marker(), pos)) by {
            if occurs_at(t, else_marker(), pos) {
                assert(t.subrange(pos, pos + 9)[2] == t[pos + 2]);
            }
        }
        assert(!occurs_at(t, endif_marker(), pos)) by {
            if occurs_at(t, endif_marker(), pos) {
                assert(t.subrange(pos, pos + 10)[2] == t[pos + 2]);
            }
        }
        lemma_plain_text_kept(t, pos + 1, strings, env);
        assert(seq![t[pos]] + t.subrange(pos + 1, t.len() as int) =~= t.subrange(
            pos,
            t.len() as int,
        ));
    } else {
        assert(t.subrange(pos, t.len() as int) =~= Seq::<char>::empty());
    }
}

/// Text without any `{` holds no directive: it is kept when the current
/// branch is kept and dropped otherwise.
pub proof fn lemma_plain_run(
    t: Seq<char>,
    pos: int,
    q: int,
    stack: Seq<Frame>,
    strings: Map<Seq<char>, Seq<char>>,
    env: Map<Seq<char>, Seq<char>>,
)
    requires
        0 <= pos <= q <= t.len(),
        forall|i: int| pos <= i < q ==> t[i] != '{',
    ensures
        preprocess_from(t, pos, stack, strings, env) == prepend(
            if stack_active(stack) {
                t.subrange(pos, q)
            } else {
                Seq::empty()
            },
            preprocess_from(t, q, stack, strings, env),
        ),
    decreases q - pos,
{
    let rest = preprocess_from(t, q, stack, strings, env);
    if pos == q {
        assert(t.subrange(pos, q) =~= Seq::<char>::empty());
        match rest {
            Ok(o) => assert(Seq::<char>::empty() + o =~= o),
            Err(_) => {},
        }
    } else {
        assert(!occurs_at(t, open_marker(), pos)) by {
            if occurs_at(t, open_marker(), pos) {
                assert(t.subrange(pos, pos + 7)[0] == t[pos]);
            }
        }
        assert(!occurs_at(t, if_marker(), pos)) by {
            if occurs_at(t, if_marker(), pos) {
                assert(t.subrange(pos, pos + 6)[0] == t[pos]);
            }
        }
        assert(!occurs_at(t, elseif_marker(), pos)) by {
            if occurs_at(t, elseif_marker(), pos) {
                assert(t.subrange(pos, pos + 10)[0] == t[pos]);
            }
        }
        assert(!occurs_at(t, else_marker(), pos)) by {
            if occurs_at(t, else_marker(), pos) {
                assert(t.subrange(pos, pos + 9)[0] == t[pos]);
            }
        }
        assert(!occurs_at(t, endif_marker(), pos)) by {
            if occurs_at(t, endif_marker(), pos) {
                assert(t.subrange(pos, pos + 10)[0] == t[pos]);
            }
        }
        lemma_plain_run(t, pos + 1, q, stack, strings, env);
        let c = if stack_active(stack) {
            seq![t[pos]]
        } else {
            Seq::<char>::empty()
        };
        let r = if stack_active(stack) {
            t.subrange(pos + 1, q)
        } else {
            Seq::<char>::empty()
        };
        lemma_prepend_twice(c, r, rest);
        if stack_active(stack) {
            assert(c + r =~= t.subrange(pos, q));
        } else {
            assert(c + r =~= Seq::<char>::empty());
        }
    }
}

/// A block `{{#if c}}a{{#else}}b{{#endif}}` keeps `a` when its condition
/// holds and `b` otherwise, for a condition without `}` and branches
/// without `{` that do not start with a line break.
#[verifier::spinoff_prover]
#[verifier::rlimit(80)]
pub proof fn lemma_if_else_block(
    c: Seq<char>,
    a: Seq<char>,
    b: Seq<char>,
    v: bool,
    strings: Map<Seq<char>, Seq<char>>,
    env: Map<Seq<char>, Seq<char>>,
)
    requires
        forall|i: int| 0 <= i < c.len() ==> c[i] != '}',
        forall|i: int| 0 <= i < a.len() ==> a[i] != '{',
        forall|i: int| 0 <= i < b.len() ==> b[i] != '{',
        a.len() > 0 ==> a[0] != '\n',
        b.len() > 0 ==> b[0] != '\n',
        condition_value(c, env) == Ok::<bool, ErrorView>(v),
    ensures
        preprocessed(
            if_marker() + c + close_marker() + a + else_marker() + b + endif_marker(),
            strings,
            env,
        ) == Ok::<Seq<char>, ErrorView>(
            if v {
                a
            } else {
                b
            },
        ),
{
    let t = if_marker() + c + close_marker() + a + else_marker() + b + endif_marker();
    let n = c.len() as int;
    let p1 = 8 + n;
    let p2 = p1 + a.len();
    let p3 = p2 + 9;
    let p4 = p3 + b.len();
    let e = p4 + 10;
    assert(t.len() == e);
    assert(forall|i: int| 0 <= i < 6 ==> t[i] == if_marker()[i]);
    assert(forall|i: int| 0 <= i < n ==> t[6 + i] == c[i]);
    assert(t[6 + n] == '}' && t[7 + n] == '}');
    assert(forall|i: int| 0 <= i < a.len() ==> t[p1 + i] == a[i]);
    assert(forall|i: int| 0 <= i < 9 ==> t[p2 + i] == else_marker()[i]);
    assert(forall|i: int| 0 <= i < b.len() ==> t[p3 + i] == b[i]);
    assert(forall|i: int| 0 <= i < 10 ==> t[p4 + i] == endif_marker()[i]);
    let s0 = Seq::<Frame>::empty();
    let s1 = s0.push(Frame { enclosing_active: true, taken: v, in_else: false, active: v });
    let s2 = s1.drop_last().push(
        Frame { enclosing_active: true, taken: true, in_else: true, active: !v },
    );
    // The opening directive and its condition.
    assert(!occurs_at(t, open_marker(), 0)) by {
        if occurs_at(t, open_marker(), 0) {
            assert(t.subrange(0, 7)[3] == t[3]);
        }
    }
    assert(t.subrange(0, 6) =~= if_marker());
    assert(t.subrange(6 + n, 8 + n) =~= close_marker());
    assert forall|m: int| 6 <= m < 6 + n implies !occurs_at(t, close_marker(), m) by {
        if occurs_at(t, close_marker(), m) {
            assert(t.subrange(m, m + 2)[0] == t[m]);
        }
    }
    crate::template::lemma_find_from_first(t, close_marker(), 6, 6 + n);
    assert(t.subrange(6, 6 + n) =~= c);
    assert(skip_newline(t, p1) == p1);
    assert(preprocess_from(t, 0, s0, strings, env) == preprocess_from(t, p1, s1, strings, env));
    // The first branch.
    lemma_plain_run(t, p1, p2, s1, strings, env);
    assert(t.subrange(p1, p2) =~= a);
    // The else directive.
    assert(!occurs_at(t, open_marker(), p2)) by {
        if occurs_at(t, open_marker(), p2) {
            assert(t.subrange(p2, p2 + 7)[3] == t[p2 + 3]);
        }
    }
    assert(!occurs_at(t, if_marker(), p2)) by {
        if occurs_at(t, if_marker(), p2) {
            assert(t.subrange(p2, p2 + 6)[3] == t[p2 + 3]);
        }
    }
    assert(!occurs_at(t, elseif_marker(), p2)) by {
        if occurs_at(t, elseif_marker(), p2) {
            assert(t.subrange(p2, p2 + 10)[7] == t[p2 + 7]);
        }
    }
    assert(t.subrange(p2, p2 + 9) =~= else_marker());
    assert(skip_newline(t, p3) == p3);
    assert(preprocess_from(t, p2, s1, strings, env) == preprocess_from(t, p3, s2, strings, env));
    // The second branch.
    lemma_plain_run(t, p3, p4, s2, strings, env);
    assert(t.subrange(p3, p4) =~= b);
    // The closing directive.
    assert(!occurs_at(t, open_marker(), p4)) by {
        if occurs_at(t, open_marker(), p4) {
            assert(t.subrange(p4, p4 + 7)[3] == t[p4 + 3]);
        }
    }
    assert(!occurs_at(t, if_marker(), p4)) by {
        if occurs_at(t, if_marker(), p4) {
            assert(t.subrange(p4, p4 + 6)[3] == t[p4 + 3]);
        }
    }
    assert(!occurs_at(t, elseif_marker(), p4)) by {
        if occurs_at(t, elseif_marker(), p4) {
            assert(t.subrange(p4, p4 + 10)[4] == t[p4 + 4]);
        }
    }
    assert(!occurs_at(t, else_marker(), p4)) by {
        if occurs_at(t, else_marker(), p4) {
            assert(t.subrange(p4, p4 + 9)[4] == t[p4 + 4]);
        }
    }
    assert(t.subrange(p4, p4 + 10) =~= endif_marker());
    assert(s2.drop_last() =~= s0);
    assert(preprocess_from(t, p4, s2, strings, env) == preprocess_from(t, e, s0, strings, env));
    assert(preprocess_from(t, e, s0, strings, env) == Ok::<Seq<char>, ErrorView>(Seq::empty()));
    // Putting the pieces together.
    let ka = if v {
        a
    } else {
        Seq::<char>::empty()
    };
    let kb = if !v {
        b
    } else {
        Seq::<char>::empty()
    };
    lemma_prepend_twice(ka, kb, Ok::<Seq<char>, ErrorView>(Seq::empty()));
    if v {
        assert(ka + kb + Seq::<char>::empty() =~= a);
    } else {
        assert(ka + kb + Seq::<char>::empty() =~= b);
    }
}

/// A block `{{#if c1}}a{{#elseif c2}}b{{#else}}d{{#endif}}` keeps exactly
/// the first branch whose condition holds, `d` when none does: `a` when `c1`
/// holds, whatever `c2` is (it is then not read), else `b` when `c2` holds,
/// else `d`. For conditions without `}` and branches without `{` that do not
/// start with a line break.
#[verifier::spinoff_prover]
#[verifier::rlimit(100)]
pub proof fn lemma_if_elseif_else_block(
    c1: Seq<char>,
    a: Seq<char>,
    c2: Seq<char>,
    b: Seq<char>,
    d: Seq<char>,
    v1: bool,
    v2: bool,
    strings: Map<Seq<char>, Seq<char>>,
    env: Map<Seq<char>, Seq<char>>,
)
    requires
        forall|i: int| 0 <= i < c1.len() ==> c1[i] != '}',
        forall|i: int| 0 <= i < c2.len() ==> c2[i] != '}',
        forall|i: int| 0 <= i < a.len() ==> a[i] != '{',
        forall|i: int| 0 <= i < b.len() ==> b[i] != '{',
        forall|i: int| 0 <= i < d.len() ==> d[i] != '{',
        a.len() > 0 ==> a[0] != '\n',
        b.len() > 0 ==> b[0] != '\n',
        d.len() > 0 ==> d[0] != '\n',
        condition_value(c1, env) == Ok::<bool, ErrorView>(v1),
        !v1 ==> condition_value(c2, env) == Ok::<bool, ErrorView>(v2),
    ensures
        preprocessed(
            if_marker() + c1 + close_marker() + a + elseif_marker() + c2 + close_marker() + b
                + else_marker() + d + endif_marker(),
            strings,
            env,
        ) == Ok::<Seq<char>, ErrorView>(
            if v1 {
                a
            } else if v2 {
                b
            } else {
                d
            },
        ),
{
    let t = if_marker() + c1 + close_marker() + a + elseif_marker() + c2 + close_marker() + b
        + else_marker() + d + endif_marker();
    let n1 = c1.len() as int;
    let n2 = c2.len() as int;
    let p1 = 8 + n1;
    let p2 = p1 + a.len();
    let q = p2 + 10;
    let p3 = q + n2 + 2;
    let p4 = p3 + b.len();
    let p5 = p4 + 9;
    let p6 = p5 + d.len();
    let e = p6 + 10;
    assert(t.len() == e);
    assert(forall|i: int| 0 <= i < 6 ==> t[i] == if_marker()[i]);
    assert(forall|i: int| 0 <= i < n1 ==> t[6 + i] == c1[i]);
    assert(t[6 + n1] == '}' && t[7 + n1] == '}');
    assert(forall|i: int| 0 <= i < a.len() ==> t[p1 + i] == a[i]);
    assert(forall|i: int| 0 <= i < 10 ==> t[p2 + i] == elseif_marker()[i]);
    assert(forall|i: int| 0 <= i < n2 ==> t[q + i] == c2[i]);
    assert(t[q + n2] == '}' && t[q + n2 + 1] == '}');
    assert(forall|i: int| 0 <= i < b.len() ==> t[p3 + i] == b[i]);
    assert(forall|i: int| 0 <= i < 9 ==> t[p4 + i] == else_marker()[i]);
    assert(forall|i: int| 0 <= i < d.len() ==> t[p5 + i] == d[i]);
    assert(forall|i: int| 0 <= i < 10 ==> t[p6 + i] == endif_marker()[i]);
    let w2 = if v1 {
        false
    } else {
        v2
    };
    let s0 = Seq::<Frame>::empty();
    let s1 = s0.push(Frame { enclosing_active: true, taken: v1, in_else: false, active: v1 });
    let s2 = s1.drop_last().push(
        Frame { enclosing_active: true, taken: v1 || w2, in_else: false, active: w2 },
    );
    let s3 = s2.drop_last().push(
        Frame { enclosing_active: true, taken: true, in_else: true, active: !(v1 || w2) },
    );
    // The opening directive and its condition.
    assert(!occurs_at(t, open_marker(), 0)) by {
        if occurs_at(t, open_marker(), 0) {
            assert(t.subrange(0, 7)[3] == t[3]);
        }
    }
    assert(t.subrange(0, 6) =~= if_marker());
    assert(t.subrange(6 + n1, 8 + n1) =~= close_marker());
    assert forall|m: int| 6 <= m < 6 + n1 implies !occurs_at(t, close_marker(), m) by {
        if occurs_at(t, close_marker(), m) {
            assert(t.subrange(m, m + 2)[0] == t[m]);
        }
    }
    crate::template::lemma_find_from_first(t, close_marker(), 6, 6 + n1);
    assert(t.subrange(6, 6 + n1) =~= c1);
    assert(skip_newline(t, p1) == p1);
    assert(preprocess_from(t, 0, s0, strings, env) == preprocess_from(t, p1, s1, strings, env));
    // The first branch.
    lemma_plain_run(t, p1, p2, s1, strings, env);
    assert(t.subrange(p1, p2) =~= a);
    // The elseif directive and its condition, read only when no branch was taken.
    assert(!occurs_at(t, open_marker(), p2)) by {
        if occurs_at(t, open_marker(), p2) {
            assert(t.subrange(p2, p2 + 7)[3] == t[p2 + 3]);
        }
    }
    assert(!occurs_at(t, if_marker(), p2)) by {
        if occurs_at(t, if_marker(), p2) {
            assert(t.subrange(p2, p2 + 6)[3] == t[p2 + 3]);
        }
    }
    assert(t.subrange(p2, p2 + 10) =~= elseif_marker());
    assert(t.subrange(q + n2, q + n2 + 2) =~= close_marker());
    assert forall|m: int| q <= m < q + n2 implies !occurs_at(t, close_marker(), m) by {
        if occurs_at(t, close_marker(), m) {
            assert(t.subrange(m, m + 2)[0] == t[m]);
        }
    }
    crate::template::lemma_find_from_first(t, close_marker(), q, q + n2);
    assert(t.subrange(q, q + n2) =~= c2);
    assert(skip_newline(t, p3) == p3);
    assert(s1.last() == Frame { enclosing_active: true, taken: v1, in_else: false, active: v1 });
    assert(preprocess_from(t, p2, s1, strings, env) == preprocess_from(t, p3, s2, strings, env));
    // The second branch.
    lemma_plain_run(t, p3, p4, s2, strings, env);
    assert(t.subrange(p3, p4) =~= b);
    // The else directive.
    assert(!occurs_at(t, open_marker(), p4)) by {
        if occurs_at(t, open_marker(), p4) {
            assert(t.subrange(p4, p4 + 7)[3] == t[p4 + 3]);
        }
    }
    assert(!occurs_at(t, if_marker(), p4)) by {
        if occurs_at(t, if_marker(), p4) {
            assert(t.subrange(p4, p4 + 6)[3] == t[p4 + 3]);
        }
    }
    assert(!occurs_at(t, elseif_marker(), p4)) by {
        if occurs_at(t, elseif_marker(), p4) {
            assert(t.subrange(p4, p4 + 10)[7] == t[p4 + 7]);
        }
    }
    assert(t.subrange(p4, p4 + 9) =~= else_marker());
    assert(skip_newline(t, p5) == p5);
    assert(s2.last() == Frame { enclosing_active: true, taken: v1 || w2, in_else: false, active: w2 });
    assert(preprocess_from(t, p4, s2, strings, env) == preprocess_from(t, p5, s3, strings, env));
    // The last branch.
    lemma_plain_run(t, p5, p6, s3, strings, env);
    assert(t.subrange(p5, p6) =~= d);
    // The closing directive.
    assert(!occurs_at(t, open_marker(), p6)) by {
        if occurs_at(t, open_marker(), p6) {
            assert(t.subrange(p6, p6 + 7)[3] == t[p6 + 3]);
        }
    }
    assert(!occurs_at(t, if_marker(), p6)) by {
        if occurs_at(t, if_marker(), p6) {
            assert(t.subrange(p6, p6 + 6)[3] == t[p6 + 3]);
        }
    }
    assert(!occurs_at(t, elseif_marker(), p6)) by {
        if occurs_at(t, elseif_marker(), p6) {
            assert(t.subrange(p6, p6 + 10)[4] == t[p6 + 4]);
        }
    }
    assert(!occurs_at(t, else_marker(), p6)) by {
        if occurs_at(t, else_marker(), p6) {
            assert(t.subrange(p6, p6 + 9)[4] == t[p6 + 4]);
        }
    }
    assert(t.subrange(p6, p6 + 10) =~= endif_marker());
    assert(s3.drop_last() =~= s0);
    assert(preprocess_from(t, p6, s3, strings, env) == preprocess_from(t, e, s0, strings, env));
    assert(preprocess_from(t, e, s0, strings, env) == Ok::<Seq<char>, ErrorView>(Seq::empty()));
    // Putting the pieces together.
    let ka = if v1 {
        a
    } else {
        Seq::<char>::empty()
    };
    let kb = if w2 {
        b
    } else {
        Seq::<char>::empty()
    };
    let kd = if !(v1 || w2) {
        d
    } else {
        Seq::<char>::empty()
    };
    lemma_prepend_twice(kb, kd, Ok::<Seq<char>, ErrorView>(Seq::empty()));
    lemma_prepend_twice(ka, kb + kd, Ok::<Seq<char>, ErrorView>(Seq::empty()));
    if v1 {
        assert(ka + (kb + kd) + Seq::<char>::empty() =~= a);
    } else if v2 {
        assert(ka + (kb + kd) + Seq::<char>::empty() =~= b);
    } else {
        assert(ka + (kb + kd) + Seq::<char>::empty() =~= d);
    }
}

/// The frames of `s` as they stand where the text around them is dropped:
/// nothing in them is kept, and a branch counts as taken once the block is
/// in its `{{#else}}` branch.
pub open spec fn dropped_frames(s: Seq<Frame>) -> Seq<Frame> {
    s.map_values(
        |f: Frame| Frame { enclosing_active: false, taken: f.in_else, in_else: f.in_else, active: false },
    )
}

/// The shape shared by the directive markers: `{{#`, then no further `{`.
pub open spec fn marker_shape(m: Seq<char>) -> bool {
    &&& m.len() >= 3
    &&& m[0] == '{'
    &&& m[1] == '{'
    &&& m[2] == '#'
    &&& forall|k: int| 2 <= k < m.len() ==> m[k] != '{'
}

/// Every directive marker has the shared shape.
proof fn lemma_marker_shapes()
    ensures
        marker_shape(open_marker()),
        marker_shape(if_marker()),
        marker_shape(elseif_marker()),
        marker_shape(else_marker()),
        marker_shape(endif_marker()),
{
}

/// Text `x` stands in `t` at `off`, followed by an `{{#endif}}`.
pub open spec fn embedded(x: Seq<char>, t: Seq<char>, off: int) -> bool {
    &&& 0 <= off
    &&& t.len() == off + x.len() + 10
    &&& forall|i: int| 0 <= i < x.len() ==> t[off + i] == x[i]
    &&& forall|i: int| 0 <= i < 10 ==> t[off + x.len() + i] == endif_marker()[i]
}

/// Inside embedded text a marker stands where it stands in the text alone:
/// none can run on into the `{{#endif}}` that follows.
proof fn lemma_marker_embedded(x: Seq<char>, t: Seq<char>, off: int, pos: int, m: Seq<char>)
    requires
        embedded(x, t, off),
        0 <= pos < x.len(),
        marker_shape(m),
    ensures
        occurs_at(t, m, off + pos) == occurs_at(x, m, pos),
{
    let n = x.len();
    if pos + m.len() <= n {
        assert(t.subrange(off + pos, off + pos + m.len()) =~= x.subrange(pos, pos + m.len()));
    } else if occurs_at(t, m, off + pos) {
        let d = n - pos;
        assert(t.subrange(off + pos, off + pos + m.len())[d] == t[off + n]);
        assert(t[off + n] == endif_marker()[0]);
        if d == 1 {
            assert(t.subrange(off + pos, off + pos + m.len())[2] == t[off + n + 1]);
            assert(t[off + n + 1] == endif_marker()[1]);
        }
    }
}

/// Inside embedded text the first `}}` from a point is found where it is
/// found in the text alone.
proof fn lemma_find_embedded(x: Seq<char>, t: Seq<char>, off: int, from: int)
    requires
        embedded(x, t, off),
        0 <= from,
        find_from(x, close_marker(), from) is Some,
    ensures
        find_from(t, close_marker(), off + from) == Some(
            off + find_from(x, close_marker(), from)->0,
        ),
{
    lemma_find_from(x, close_marker(), from);
    let j = find_from(x, close_marker(), from)->0;
    assert(t.subrange(off + j, off + j + 2) =~= x.subrange(j, j + 2));
    assert forall|m: int| off + from <= m < off + j implies !occurs_at(t, close_marker(), m) by {
        assert(!occurs_at(x, close_marker(), m - off));
        assert(t.subrange(m, m + 2) =~= x.subrange(m - off, m - off + 2));
    }
    crate::template::lemma_find_from_first(t, close_marker(), off + from, off + j);
}

/// Moving past one line break is the same inside embedded text, also at its
/// end, where the `{{#endif}}` follows.
proof fn lemma_skip_embedded(x: Seq<char>, t: Seq<char>, off: int, e: int)
    requires
        embedded(x, t, off),
        0 <= e <= x.len(),
    ensures
        skip_newline(t, off + e) == off + skip_newline(x, e),
        skip_newline(x, e) <= x.len(),
{
    if e == x.len() {
        assert(t[off + x.len()] == endif_marker()[0]);
    }
}

/// What the five markers do at a point of embedded text: stand where they
/// stand in the text alone.
proof fn lemma_markers_embedded(x: Seq<char>, t: Seq<char>, off: int, pos: int)
    requires
        embedded(x, t, off),
        0 <= pos < x.len(),
    ensures
        occurs_at(t, open_marker(), off + pos) == occurs_at(x, open_marker(), pos),
        occurs_at(t, if_marker(), off + pos) == occurs_at(x, if_marker(), pos),
        occurs_at(t, elseif_marker(), off + pos) == occurs_at(x, elseif_marker(), pos),
        occurs_at(t, else_marker(), off + pos) == occurs_at(x, else_marker(), pos),
        occurs_at(t, endif_marker(), off + pos) == occurs_at(x, endif_marker(), pos),
{
    lemma_marker_shapes();
    lemma_marker_embedded(x, t, off, pos, open_marker());
    lemma_marker_embedded(x, t, off, pos, if_marker());
    lemma_marker_embedded(x, t, off, pos, elseif_marker());
    lemma_marker_embedded(x, t, off, pos, else_marker());
    lemma_marker_embedded(x, t, off, pos, endif_marker());
}

/// The stack of a dropped block `f0` with the frames `s` open inside it.
pub open spec fn dropped_stack(f0: Frame, s: Seq<Frame>) -> Seq<Frame> {
    seq![f0] + dropped_frames(s)
}

/// Nothing is kept inside a dropped block.
proof fn lemma_dropped_inactive(f0: Frame, s: Seq<Frame>)
    requires
        !f0.active,
    ensures
        !stack_active(dropped_stack(f0, s)),
        dropped_stack(f0, s).len() == s.len() + 1,
        s.len() > 0 ==> dropped_stack(f0, s).last() == dropped_frames(s).last(),
{
    if s.len() > 0 {
        assert(dropped_stack(f0, s).last() == dropped_frames(s).last());
    }
}

/// The end of the embedded text closes the dropped block with nothing kept.
proof fn lemma_dropped_end(
    x: Seq<char>,
    t: Seq<char>,
    off: int,
    f0: Frame,
    strings: Map<Seq<char>, Seq<char>>,
    env: Map<Seq<char>, Seq<char>>,
)
    requires
        embedded(x, t, off),
    ensures
        preprocess_from(t, off + x.len(), dropped_stack(f0, Seq::empty()), strings, env) == Ok::<
            Seq<char>,
            ErrorView,
        >(Seq::empty()),
{
    let e = off + x.len();
    let st = dropped_stack(f0, Seq::empty());
    assert(st =~= seq![f0]);
    assert(t.subrange(e, e + 10) =~= endif_marker());
    assert(!occurs_at(t, open_marker(), e)) by {
        if occurs_at(t, open_marker(), e) {
            assert(t.subrange(e, e + 7)[3] == t[e + 3]);
        }
    }
    assert(!occurs_at(t, if_marker(), e)) by {
        if occurs_at(t, if_marker(), e) {
            assert(t.subrange(e, e + 6)[3] == t[e + 3]);
        }
    }
    assert(!occurs_at(t, elseif_marker(), e)) by {
        if occurs_at(t, elseif_marker(), e) {
            assert(t.subrange(e, e + 10)[4] == t[e + 4]);
        }
    }
    assert(!occurs_at(t, else_marker(), e)) by {
        if occurs_at(t, else_marker(), e) {
            assert(t.subrange(e, e + 9)[4] == t[e + 4]);
        }
    }
    assert(st.drop_last() =~= Seq::<Frame>::empty());
    assert(skip_newline(t, e + 10) == e + 10);
    assert(preprocess_from(t, e + 10, Seq::empty(), strings, env) == Ok::<Seq<char>, ErrorView>(
        Seq::empty(),
    ));
    assert(occurs_at(t, endif_marker(), e));
}

/// A `{{#str}}` reference in dropped text is passed over unread.
proof fn lemma_dropped_str(
    x: Seq<char>,
    t: Seq<char>,
    off: int,
    pos: int,
    f0: Frame,
    s: Seq<Frame>,
    strings: Map<Seq<char>, Seq<char>>,
    env: Map<Seq<char>, Seq<char>>,
) -> (r: int)
    requires
        embedded(x, t, off),
        0 <= pos < x.len(),
        !f0.active,
        preprocess_from(x, pos, s, strings, env) is Ok,
        occurs_at(x, open_marker(), pos),
    ensures
        pos < r <= x.len(),
        preprocess_from(x, r, s, strings, env) is Ok,
        preprocess_from(t, off + r, dropped_stack(f0, s), strings, env) == preprocess_from(
            t,
            off + pos,
            dropped_stack(f0, s),
            strings,
            env,
        ),
{
    lemma_markers_embedded(x, t, off, pos);
    lemma_dropped_inactive(f0, s);
    lemma_find_embedded(x, t, off, pos + 7);
    lemma_find_from(x, close_marker(), pos + 7);
    find_from(x, close_marker(), pos + 7)->0 + 2
}

/// An `{{#if}}` in dropped text opens a dropped block without reading its
/// condition.
proof fn lemma_dropped_if(
    x: Seq<char>,
    t: Seq<char>,
    off: int,
    pos: int,
    f0: Frame,
    s: Seq<Frame>,
    strings: Map<Seq<char>, Seq<char>>,
    env: Map<Seq<char>, Seq<char>>,
) -> (r: (int, Seq<Frame>))
    requires
        embedded(x, t, off),
        0 <= pos < x.len(),
        !f0.active,
        preprocess_from(x, pos, s, strings, env) is Ok,
        !occurs_at(x, open_marker(), pos),
        occurs_at(x, if_marker(), pos),
    ensures
        pos < r.0 <= x.len(),
        preprocess_from(x, r.0, r.1, strings, env) is Ok,
        preprocess_from(t, off + r.0, dropped_stack(f0, r.1), strings, env) == preprocess_from(
            t,
            off + pos,
            dropped_stack(f0, s),
            strings,
            env,
        ),
{
    lemma_markers_embedded(x, t, off, pos);
    lemma_dropped_inactive(f0, s);
    lemma_find_embedded(x, t, off, pos + 6);
    let j = find_from(x, close_marker(), pos + 6)->0;
    lemma_find_from(x, close_marker(), pos + 6);
    lemma_skip_embedded(x, t, off, j + 2);
    let cur = stack_active(s);
    let v = (if cur {
        condition_value(x.subrange(pos + 6, j), env)
    } else {
        Ok::<bool, ErrorView>(false)
    })->Ok_0;
    let s2 = s.push(Frame { enclosing_active: cur, taken: v, in_else: false, active: v });
    assert(dropped_stack(f0, s).push(
        Frame { enclosing_active: false, taken: false, in_else: false, active: false },
    ) =~= dropped_stack(f0, s2));
    (skip_newline(x, j + 2), s2)
}

/// An `{{#elseif}}` in dropped text moves to the next dropped branch
/// without reading its condition.
proof fn lemma_dropped_elseif(
    x: Seq<char>,
    t: Seq<char>,
    off: int,
    pos: int,
    f0: Frame,
    s: Seq<Frame>,
    strings: Map<Seq<char>, Seq<char>>,
    env: Map<Seq<char>, Seq<char>>,
) -> (r: (int, Seq<Frame>))
    requires
        embedded(x, t, off),
        0 <= pos < x.len(),
        !f0.active,
        preprocess_from(x, pos, s, strings, env) is Ok,
        !occurs_at(x, open_marker(), pos),
        !occurs_at(x, if_marker(), pos),
        occurs_at(x, elseif_marker(), pos),
    ensures
        pos < r.0 <= x.len(),
        preprocess_from(x, r.0, r.1, strings, env) is Ok,
        preprocess_from(t, off + r.0, dropped_stack(f0, r.1), strings, env) == preprocess_from(
            t,
            off + pos,
            dropped_stack(f0, s),
            strings,
            env,
        ),
{
    lemma_markers_embedded(x, t, off, pos);
    lemma_dropped_inactive(f0, s);
    lemma_find_embedded(x, t, off, pos + 10);
    let j = find_from(x, close_marker(), pos + 10)->0;
    lemma_find_from(x, close_marker(), pos + 10);
    lemma_skip_embedded(x, t, off, j + 2);
    let top = s.last();
    let live = top.enclosing_active && !top.taken;
    let v = (if live {
        condition_value(x.subrange(pos + 10, j), env)
    } else {
        Ok::<bool, ErrorView>(false)
    })->Ok_0;
    let s2 = s.drop_last().push(
        Frame { enclosing_active: top.enclosing_active, taken: top.taken || v, in_else: false, active: v },
    );
    assert(dropped_stack(f0, s).drop_last().push(
        Frame { enclosing_active: false, taken: false, in_else: false, active: false },
    ) =~= dropped_stack(f0, s2));
    (skip_newline(x, j + 2), s2)
}

/// An `{{#else}}` in dropped text moves to a dropped last branch.
proof fn lemma_dropped_else(
    x: Seq<char>,
    t: Seq<char>,
    off: int,
    pos: int,
    f0: Frame,
    s: Seq<Frame>,
    strings: Map<Seq<char>, Seq<char>>,
    env: Map<Seq<char>, Seq<char>>,
) -> (r: (int, Seq<Frame>))
    requires
        embedded(x, t, off),
        0 <= pos < x.len(),
        !f0.active,
        preprocess_from(x, pos, s, strings, env) is Ok,
        !occurs_at(x, open_marker(), pos),
        !occurs_at(x, if_marker(), pos),
        !occurs_at(x, elseif_marker(), pos),
        occurs_at(x, else_marker(), pos),
    ensures
        pos < r.0 <= x.len(),
        preprocess_from(x, r.0, r.1, strings, env) is Ok,
        preprocess_from(t, off + r.0, dropped_stack(f0, r.1), strings, env) == preprocess_from(
            t,
            off + pos,
            dropped_stack(f0, s),
            strings,
            env,
        ),
{
    lemma_markers_embedded(x, t, off, pos);
    lemma_dropped_inactive(f0, s);
    lemma_skip_embedded(x, t, off, pos + 9);
    let top = s.last();
    let s2 = s.drop_last().push(
        Frame {
            enclosing_active: top.enclosing_active,
            taken: true,
            in_else: true,
            active: top.enclosing_active && !top.taken,
        },
    );
    assert(dropped_stack(f0, s).drop_last().push(
        Frame { enclosing_active: false, taken: true, in_else: true, active: false },
    ) =~= dropped_stack(f0, s2));
    (skip_newline(x, pos + 9), s2)
}

/// An `{{#endif}}` in dropped text closes the innermost dropped block.
proof fn lemma_dropped_endif(
    x: Seq<char>,
    t: Seq<char>,
    off: int,
    pos: int,
    f0: Frame,
    s: Seq<Frame>,
    strings: Map<Seq<char>, Seq<char>>,
    env: Map<Seq<char>, Seq<char>>,
) -> (r: (int, Seq<Frame>))
    requires
        embedded(x, t, off),
        0 <= pos < x.len(),
        !f0.active,
        preprocess_from(x, pos, s, strings, env) is Ok,
        !occurs_at(x, open_marker(), pos),
        !occurs_at(x, if_marker(), pos),
        !occurs_at(x, elseif_marker(), pos),
        !occurs_at(x, else_marker(), pos),
        occurs_at(x, endif_marker(), pos),
    ensures
        pos < r.0 <= x.len(),
        preprocess_from(x, r.0, r.1, strings, env) is Ok,
        preprocess_from(t, off + r.0, dropped_stack(f0, r.1), strings, env) == preprocess_from(
            t,
            off + pos,
            dropped_stack(f0, s),
            strings,
            env,
        ),
{
    lemma_markers_embedded(x, t, off, pos);
    lemma_dropped_inactive(f0, s);
    lemma_skip_embedded(x, t, off, pos + 10);
    assert(dropped_stack(f0, s).drop_last() =~= dropped_stack(f0, s.drop_last()));
    (skip_newline(x, pos + 10), s.drop_last())
}

/// A character of plain text in dropped text is dropped.
proof fn lemma_dropped_plain(
    x: Seq<char>,
    t: Seq<char>,
    off: int,
    pos: int,
    f0: Frame,
    s: Seq<Frame>,
    strings: Map<Seq<char>, Seq<char>>,
    env: Map<Seq<char>, Seq<char>>,
)
    requires
        embedded(x, t, off),
        0 <= pos < x.len(),
        !f0.active,
        preprocess_from(x, pos, s, strings, env) is Ok,
        !occurs_at(x, open_marker(), pos),
        !occurs_at(x, if_marker(), pos),
        !occurs_at(x, elseif_marker(), pos),
        !occurs_at(x, else_marker(), pos),
        !occurs_at(x, endif_marker(), pos),
    ensures
        preprocess_from(x, pos + 1, s, strings, env) is Ok,
        preprocess_from(t, off + pos + 1, dropped_stack(f0, s), strings, env) == Ok::<
            Seq<char>,
            ErrorView,
        >(Seq::empty()) ==> preprocess_from(t, off + pos, dropped_stack(f0, s), strings, env)
            == Ok::<Seq<char>, ErrorView>(Seq::empty()),
{
    lemma_markers_embedded(x, t, off, pos);
    lemma_dropped_inactive(f0, s);
    assert(Seq::<char>::empty() + Seq::<char>::empty() =~= Seq::<char>::empty());
}

/// Text that preprocesses without error on its own, read inside a block
/// whose text is dropped, keeps nothing and fails nowhere up to the block's
/// `{{#endif}}`: its conditions are not read, its strings not looked up.
proof fn lemma_dropped_run(
    x: Seq<char>,
    t: Seq<char>,
    off: int,
    pos: int,
    f0: Frame,
    s: Seq<Frame>,
    strings: Map<Seq<char>, Seq<char>>,
    env: Map<Seq<char>, Seq<char>>,
)
    requires
        embedded(x, t, off),
        0 <= pos <= x.len(),
        !f0.active,
        preprocess_from(x, pos, s, strings, env) is Ok,
    ensures
        preprocess_from(t, off + pos, dropped_stack(f0, s), strings, env) == Ok::<
            Seq<char>,
            ErrorView,
        >(Seq::empty()),
    decreases x.len() - pos,
{
    if pos == x.len() {
        assert(s.len() == 0);
        assert(s =~= Seq::<Frame>::empty());
        lemma_dropped_end(x, t, off, f0, strings, env);
    } else if occurs_at(x, open_marker(), pos) {
        let r = lemma_dropped_str(x, t, off, pos, f0, s, strings, env);
        lemma_dropped_run(x, t, off, r, f0, s, strings, env);
    } else if occurs_at(x, if_marker(), pos) {
        let r = lemma_dropped_if(x, t, off, pos, f0, s, strings, env);
        lemma_dropped_run(x, t, off, r.0, f0, r.1, strings, env);
    } else if occurs_at(x, elseif_marker(), pos) {
        let r = lemma_dropped_elseif(x, t, off, pos, f0, s, strings, env);
        lemma_dropped_run(x, t, off, r.0, f0, r.1, strings, env);
    } else if occurs_at(x, else_marker(), pos) {
        let r = lemma_dropped_else(x, t, off, pos, f0, s, strings, env);
        lemma_dropped_run(x, t, off, r.0, f0, r.1, strings, env);
    } else if occurs_at(x, endif_marker(), pos) {
        let r = lemma_dropped_endif(x, t, off, pos, f0, s, strings, env);
        lemma_dropped_run(x, t, off, r.0, f0, r.1, strings, env);
    } else {
        lemma_dropped_plain(x, t, off, pos, f0, s, strings, env);
        lemma_dropped_run(x, t, off, pos + 1, f0, s, strings, env);
    }
}

/// A block whose condition does not hold drops everything up to its
/// `{{#endif}}`, whatever it holds: for any text `x` that preprocesses
/// without error on its own, nested blocks with `{{#elseif}}` and
/// `{{#else}}` branches and string references included,
/// `{{#if c}}x{{#endif}}` preprocesses to nothing when `c` is false. No
/// condition or string inside is read, so no branch inside is kept.
#[verifier::spinoff_prover]
#[verifier::rlimit(60)]
pub proof fn lemma_false_block_drops_everything(
    c: Seq<char>,
    x: Seq<char>,
    strings: Map<Seq<char>, Seq<char>>,
    env: Map<Seq<char>, Seq<char>>,
)
    requires
        forall|i: int| 0 <= i < c.len() ==> c[i] != '}',
        condition_value(c, env) == Ok::<bool, ErrorView>(false),
        preprocessed(x, strings, env) is Ok,
    ensures
        preprocessed(if_marker() + c + close_marker() + x + endif_marker(), strings, env) == Ok::<
            Seq<char>,
            ErrorView,
        >(Seq::empty()),
{
    let t = if_marker() + c + close_marker() + x + endif_marker();
    let n = c.len() as int;
    let off = 8 + n;
    assert(t.len() == off + x.len() + 10);
    assert(forall|i: int| 0 <= i < 6 ==> t[i] == if_marker()[i]);
    assert(forall|i: int| 0 <= i < n ==> t[6 + i] == c[i]);
    assert(t[6 + n] == '}' && t[7 + n] == '}');
    assert(forall|i: int| 0 <= i < x.len() ==> t[off + i] == x[i]);
    assert(forall|i: int| 0 <= i < 10 ==> t[off + x.len() + i] == endif_marker()[i]);
    assert(embedded(x, t, off));
    let s0 = Seq::<Frame>::empty();
    let f0 = Frame { enclosing_active: true, taken: false, in_else: false, active: false };
    // The opening directive and its condition.
    assert(!occurs_at(t, open_marker(), 0)) by {
        if occurs_at(t, open_marker(), 0) {
            assert(t.subrange(0, 7)[3] == t[3]);
        }
    }
    assert(t.subrange(0, 6) =~= if_marker());
    assert(t.subrange(6 + n, 8 + n) =~= close_marker());
    assert forall|m: int| 6 <= m < 6 + n implies !occurs_at(t, close_marker(), m) by {
        if occurs_at(t, close_marker(), m) {
            assert(t.subrange(m, m + 2)[0] == t[m]);
        }
    }
    crate::template::lemma_find_from_first(t, close_marker(), 6, 6 + n);
    assert(t.subrange(6, 6 + n) =~= c);
    assert(dropped_stack(f0, s0) =~= s0.push(f0));
    assert(preprocess_from(t, 0, s0, strings, env) == preprocess_from(
        t,
        skip_newline(t, off),
        dropped_stack(f0, s0),
        strings,
        env,
    ));
    // The text of the block.
    if x.len() > 0 && x[0] == '\n' {
        lemma_marker_shapes();
        assert(!occurs_at(x, open_marker(), 0)) by {
            if occurs_at(x, open_marker(), 0) {
                assert(x.subrange(0, 7)[0] == x[0]);
            }
        }
        assert(!occurs_at(x, if_marker(), 0)) by {
            if occurs_at(x, if_marker(), 0) {
                assert(x.subrange(0, 6)[0] == x[0]);
            }
        }
        assert(!occurs_at(x, elseif_marker(), 0)) by {
            if occurs_at(x, elseif_marker(), 0) {
                assert(x.subrange(0, 10)[0] == x[0]);
            }
        }
        assert(!occurs_at(x, else_marker(), 0)) by {
            if occurs_at(x, else_marker(), 0) {
                assert(x.subrange(0, 9)[0] == x[0]);
            }
        }
        assert(!occurs_at(x, endif_marker(), 0)) by {
            if occurs_at(x, endif_marker(), 0) {
                assert(x.subrange(0, 10)[0] == x[0]);
            }
        }
        assert(preprocess_from(x, 1, s0, strings, env) is Ok);
        assert(skip_newline(t, off) == off + 1);
        lemma_dropped_run(x, t, off, 1, f0, s0, strings, env);
    } else {
        assert(skip_newline(t, off) == off) by {
            if x.len() == 0 {
                assert(t[off] == endif_marker()[0]);
            }
        }
        lemma_dropped_run(x, t, off, 0, f0, s0, strings, env);
    }
}

/// The text read since the last directive that is still to be written.
pub open spec fn pending_text(t: Seq<char>, run: int, pos: int, stack: Seq<Frame>) -> Seq<char> {
    if stack_active(stack) {
        t.subrange(run, pos)
    } else {
        Seq::empty()
    }
}

/// Putting two pieces in front one after the other is putting their
/// concatenation in front.
proof fn lemma_prepend_twice(a: Seq<char>, b: Seq<char>, r: Result<Seq<char>, ErrorView>)
    ensures
        prepend(a, prepend(b, r)) == prepend(a + b, r),
{
    match r {
        Ok(o) => assert(a + (b + o) =~= (a + b) + o),
        Err(_) => {},
    }
}

/// Whether text at the current point is kept.
fn is_active(stack: &Vec<Frame>) -> (r: bool)
    ensures
        r == stack_active(stack@),
{
    if stack.len() == 0 {
        true
    } else {
        stack[stack.len() - 1].active
    }
}

/// The characters of `t` from `a` up to `b`.
fn copy_range(t: &Vec<char>, a: usize, b: usize) -> (r: Vec<char>)
    requires
        a <= b <= t@.len(),
    ensures
        r@ == t@.subrange(a as int, b as int),
{
    let mut v: Vec<char> = Vec::new();
    let mut k = a;
    while k < b
        invariant
            a <= k <= b <= t@.len(),
            v@ == t@.subrange(a as int, k as int),
        decreases b - k,
    {
        v.push(t[k]);
        k = k + 1;
        assert(v@ =~= t@.subrange(a as int, k as int));
    }
    v
}

/// Position `e`, moved past one line break if one stands there.
fn skip_newline_exec(t: &Vec<char>, e: usize) -> (r: usize)
    requires
        e <= t@.len(),
    ensures
        r == skip_newline(t@, e as int),
        r <= t@.len(),
{
    if e < t.len() && t[e] == '\n' {
        e + 1
    } else {
        e
    }
}

/// Preprocesses a copied file's text with the brand's strings and
/// environment values.
#[verifier::spinoff_prover]
#[verifier::rlimit(40)]
pub fn preprocess(text: &str, brand_config: &BrandConfig) -> (r: Result<String, Error>)
    ensures
        string_result_view(r) == preprocessed(text@, brand_config.strings@, brand_config.env@),
{
    let ghost strings = brand_config.strings@;
    let ghost env = brand_config.env@;
    let t = chars_of(text);
    let n = t.len();
    let m_str = vec!['{', '{', '#', 's', 't', 'r', ' '];
    let m_if = vec!['{', '{', '#', 'i', 'f', ' '];
    let m_elseif = vec!['{', '{', '#', 'e', 'l', 's', 'e', 'i', 'f', ' '];
    let m_else = vec!['{', '{', '#', 'e', 'l', 's', 'e', '}', '}'];
    let m_endif = vec!['{', '{', '#', 'e', 'n', 'd', 'i', 'f', '}', '}'];
    let close = vec!['}', '}'];
    assert(m_str@ =~= open_marker());
    assert(m_if@ =~= if_marker());
    assert(m_elseif@ =~= elseif_marker());
    assert(m_else@ =~= else_marker());
    assert(m_endif@ =~= endif_marker());
    assert(close@ =~= close_marker());
    let mut stack: Vec<Frame> = Vec::new();
    let mut out = String::new();
    let mut pos: usize = 0;
    let mut run: usize = 0;
    proof {
        assert(out@ + pending_text(text@, 0, 0, stack@) =~= Seq::<char>::empty());
        lemma_prepend_twice(Seq::empty(), Seq::empty(), preprocess_from(text@, 0, stack@, strings, env));
        match preprocess_from(text@, 0, stack@, strings, env) {
            Ok(o) => assert(Seq::<char>::empty() + o =~= o),
            Err(_) => {},
        }
    }
    loop
        invariant
            n == t@.len(),
            t@ == text@,
            m_str@ == open_marker(),
            m_if@ == if_marker(),
            m_elseif@ == elseif_marker(),
            m_else@ == else_marker(),
            m_endif@ == endif_marker(),
            close@ == close_marker(),
            open_marker().len() == 7,
            if_marker().len() == 6,
            elseif_marker().len() == 10,
            else_marker().len() == 9,
            endif_marker().len() == 10,
            close_marker().len() == 2,
            strings == brand_config.strings@,
            env == brand_config.env@,
            run <= pos <= n,
            preprocessed(text@, strings, env) == prepend(
                out@ + pending_text(text@, run as int, pos as int, stack@),
                preprocess_from(text@, pos as int, stack@, strings, env),
            ),
        decreases n - pos,
    {
        let active = is_active(&stack);
        let ghost rest = preprocess_from(text@, pos as int, stack@, strings, env);
        if pos < n && !(marker_at(&t, &m_str, pos) || marker_at(&t, &m_if, pos) || marker_at(
            &t,
            &m_elseif,
            pos,
        ) || marker_at(&t, &m_else, pos) || marker_at(&t, &m_endif, pos)) {
            proof {
                let c = if active {
                    seq![text@[pos as int]]
                } else {
                    Seq::<char>::empty()
                };
                let p = out@ + pending_text(text@, run as int, pos as int, stack@);
                lemma_prepend_twice(p, c, preprocess_from(text@, pos + 1, stack@, strings, env));
                assert(p + c =~= out@ + pending_text(text@, run as int, pos + 1, stack@));
            }
            pos = pos + 1;
            continue;
        }
        // Write out the text read so far.

        let ghost before = out@ + pending_text(text@, run as int, pos as int, stack@);
        if active {
            out.append(text.substring_char(run, pos));
        }
        run = pos;
        assert(out@ + pending_text(text@, run as int, pos as int, stack@) =~= before);
        if pos >= n {
            assert(rest == preprocess_from(text@, pos as int, stack@, strings, env));
            if stack.len() == 0 {
                proof {
                    assert(out@ + Seq::<char>::empty() =~= out@);
                }
                return Ok(out);
            } else {
                return Err(Error::MalformedTemplate(text.to_owned()));
            }
        }
        if marker_at(&t, &m_str, pos) {
            let j = match find_marker(&t, &close, pos + 7) {
                None => return Err(Error::MalformedTemplate(text.to_owned())),
                Some(j) => j,
            };
            proof {
                lemma_find_from(text@, close_marker(), pos + 7);
            }
            if active {
                let (a, b) = trim_range(&t, pos + 7, j);
                let key = text.substring_char(a, b).to_owned();
                match brand_config.strings.get(key.as_str()) {
                    None => return Err(Error::UnknownStringKey(key)),
                    Some(v) => {
                        proof {
                            lemma_prepend_twice(
                                out@,
                                v@,
                                preprocess_from(text@, j + 2, stack@, strings, env),
                            );
                        }
                        out.append(v.as_str());
                    },
                }
            }
            pos = j + 2;
            run = pos;
            assert(pending_text(text@, run as int, pos as int, stack@) =~= Seq::<char>::empty());
            assert(out@ + Seq::<char>::empty() =~= out@);
        } else if marker_at(&t, &m_if, pos) {
            let j = match find_marker(&t, &close, pos + 6) {
                None => return Err(Error::MalformedTemplate(text.to_owned())),
                Some(j) => j,
            };
            proof {
                lemma_find_from(text@, close_marker(), pos + 6);
            }
            let v = if active {
                let cond = copy_range(&t, pos + 6, j);
                match eval_condition(text, &cond, pos + 6, &brand_config.env) {
                    Ok(v) => v,
                    Err(e) => return Err(e),
                }
            } else {
                false
            };
            stack.push(Frame { enclosing_active: active, taken: v, in_else: false, active: v });
            pos = skip_newline_exec(&t, j + 2);
            run = pos;
            assert(pending_text(text@, run as int, pos as int, stack@) =~= Seq::<char>::empty());
            assert(out@ + Seq::<char>::empty() =~= out@);
        } else if marker_at(&t, &m_elseif, pos) {
            let j = match find_marker(&t, &close, pos + 10) {
                None => return Err(Error::MalformedTemplate(text.to_owned())),
                Some(j) => j,
            };
            proof {
                lemma_find_from(text@, close_marker(), pos + 10);
            }
            if stack.len() == 0 || stack[stack.len() - 1].in_else {
                return Err(Error::MalformedTemplate(text.to_owned()));
            }
            let last = stack.len() - 1;
            let top = stack[last];
            let live = top.enclosing_active && !top.taken;
            let v = if live {
                let cond = copy_range(&t, pos + 10, j);
                match eval_condition(text, &cond, pos + 10, &brand_config.env) {
                    Ok(v) => v,
                    Err(e) => return Err(e),
                }
            } else {
                false
            };
            let ghost old_stack = stack@;
            stack.set(
                last,
                Frame {
                    enclosing_active: top.enclosing_active,
                    taken: top.taken || v,
                    in_else: false,
                    active: v,
                },
            );
            assert(stack@ =~= old_stack.drop_last().push(
                Frame {
                    enclosing_active: top.enclosing_active,
                    taken: top.taken || v,
                    in_else: false,
                    active: v,
                },
            ));
            pos = skip_newline_exec(&t, j + 2);
            run = pos;
            assert(pending_text(text@, run as int, pos as int, stack@) =~= Seq::<char>::empty());
            assert(out@ + Seq::<char>::empty() =~= out@);
        } else if marker_at(&t, &m_else, pos) {
            if stack.len() == 0 || stack[stack.len() - 1].in_else {
                return Err(Error::MalformedTemplate(text.to_owned()));
            }
            let last = stack.len() - 1;
            let top = stack[last];
            let ghost old_stack = stack@;
            let frame = Frame {
                enclosing_active: top.enclosing_active,
                taken: true,
                in_else: true,
                active: top.enclosing_active && !top.taken,
            };
            stack.set(last, frame);
            assert(stack@ =~= old_stack.drop_last().push(frame));
            pos = skip_newline_exec(&t, pos + 9);
            run = pos;
            assert(pending_text(text@, run as int, pos as int, stack@) =~= Seq::<char>::empty());
            assert(out@ + Seq::<char>::empty() =~= out@);
        } else {
            if stack.len() == 0 {
                return Err(Error::MalformedTemplate(text.to_owned()));
            }
            let ghost old_stack = stack@;
            stack.pop();
            assert(stack@ =~= old_stack.drop_last());
            pos = skip_newline_exec(&t, pos + 10);
            run = pos;
            assert(pending_text(text@, run as int, pos as int, stack@) =~= Seq::<char>::empty());
            assert(out@ + Seq::<char>::empty() =~= out@);
        }
    }
}

} // verus!
