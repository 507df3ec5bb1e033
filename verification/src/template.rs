//! Expansion of `{{#str key}}` references in configuration strings.
use vstd::prelude::*;
use vstd::string::*;
use crate::config::{BrandConfig, StringTable};
use crate::error::{Error, ErrorView, string_result_view};

verus! {

/// The characters that open a string reference.
pub open spec fn open_marker() -> Seq<char> {
    seq!['{', '{', '#', 's', 't', 'r', ' ']
}

/// The characters that close a string reference.
pub open spec fn close_marker() -> Seq<char> {
    seq!['}', '}']
}

/// `pat` stands in `s` at position `i`.
pub open spec fn occurs_at(s: Seq<char>, pat: Seq<char>, i: int) -> bool {
    0 <= i && i + pat.len() <= s.len() && s.subrange(i, i + pat.len()) == pat
}

/// The first position at or after `from` where `pat` stands in `s`.
pub open spec fn find_from(s: Seq<char>, pat: Seq<char>, from: int) -> Option<int>
    decreases s.len() - from,
{
    if from < 0 || from >= s.len() || from + pat.len() > s.len() {
        None
    } else if occurs_at(s, pat, from) {
        Some(from)
    } else {
        find_from(s, pat, from + 1)
    }
}

/// What `find_from` finds is an occurrence at or after its start, and the first one.
pub proof fn lemma_find_from(s: Seq<char>, pat: Seq<char>, from: int)
    requires
        0 <= from,
    ensures
        find_from(s, pat, from) matches Some(k) ==> from <= k && occurs_at(s, pat, k) && (
        forall|m: int| from <= m < k ==> !occurs_at(s, pat, m)),
        find_from(s, pat, from) is None ==> forall|m: int|
            from <= m && m < s.len() ==> !occurs_at(s, pat, m),
    decreases s.len() - from,
{
    if from < 0 || from >= s.len() || from + pat.len() > s.len() {
    } else if occurs_at(s, pat, from) {
    } else {
        lemma_find_from(s, pat, from + 1);
    }
}

/// A blank character, removed from both ends of a reference's key.
pub open spec fn is_blank(c: char) -> bool {
    c == ' ' || c == '\t' || c == '\n' || c == '\r'
}

/// `s` without its leading blanks.
pub open spec fn trim_start(s: Seq<char>) -> Seq<char>
    decreases s.len(),
{
    if s.len() > 0 && is_blank(s[0]) {
        trim_start(s.skip(1))
    } else {
        s
    }
}

/// `s` without its trailing blanks.
pub open spec fn trim_end(s: Seq<char>) -> Seq<char>
    decreases s.len(),
{
    if s.len() > 0 && is_blank(s.last()) {
        trim_end(s.drop_last())
    } else {
        s
    }
}

/// `s` without blanks at either end.
pub open spec fn trim_blanks(s: Seq<char>) -> Seq<char> {
    trim_end(trim_start(s))
}

/// `p` put in front of the text of a successful result.
pub open spec fn prepend(p: Seq<char>, r: Result<Seq<char>, ErrorView>) -> Result<
    Seq<char>,
    ErrorView,
> {
    match r {
        Ok(o) => Ok(p + o),
        Err(e) => Err(e),
    }
}

/// The expansion of template `t` from position `pos` on: every reference
/// `{{#str key}}` is replaced by the brand string named by `key` (blanks
/// around it ignored) and all other text is kept. A reference without a
/// closing `}}` makes the whole template malformed; a key that `strings` lacks
/// is unknown. The first such fault from the left decides the error.
pub open spec fn expand_from(t: Seq<char>, pos: int, strings: Map<Seq<char>, Seq<char>>) -> Result<
    Seq<char>,
    ErrorView,
>
    decreases t.len() - pos,
{
    if pos < 0 || pos > t.len() {
        Ok(Seq::empty())
    } else {
        match find_from(t, open_marker(), pos) {
            None => Ok(t.subrange(pos, t.len() as int)),
            Some(i) => {
                match find_from(t, close_marker(), i + 7) {
                    None => Err(ErrorView::MalformedTemplate(t)),
                    Some(j) => {
                        let key = trim_blanks(t.subrange(i + 7, j));
                        if !strings.contains_key(key) {
                            Err(ErrorView::UnknownStringKey(key))
                        } else {
                            proof {
                                lemma_find_from(t, open_marker(), pos);
                                lemma_find_from(t, close_marker(), i + 7);
                            }
                            prepend(
                                t.subrange(pos, i) + strings[key],
                                expand_from(t, j + 2, strings),
                            )
                        }
                    },
                }
            },
        }
    }
}

/// The expansion of a whole template against a brand's strings.
pub open spec fn expand(t: Seq<char>, strings: Map<Seq<char>, Seq<char>>) -> Result<
    Seq<char>,
    ErrorView,
> {
    expand_from(t, 0, strings)
}

/// The characters of `s`, one by one.
pub(crate) fn chars_of(s: &str) -> (r: Vec<char>)
    ensures
        r@ == s@,
{
    broadcast use vstd::string::group_string_axioms;

    let mut v: Vec<char> = Vec::new();
    for c in it: s.chars()
        invariant
            it.seq() == s@,
            v@.len() == it.index(),
            v@ == s@.take(v@.len() as int),
    {
        assert(s@.take(v@.len() + 1 as int) =~= s@.take(v@.len() as int).push(c));
        v.push(c);
    }
    assert(s@.take(v@.len() as int) =~= s@);
    v
}

/// Whether `pat` stands in `s` at position `i`.
pub(crate) fn marker_at(s: &Vec<char>, pat: &Vec<char>, i: usize) -> (r: bool)
    ensures
        r == occurs_at(s@, pat@, i as int),
{
    if i > s.len() || pat.len() > s.len() - i {
        return false;
    }
    let mut k: usize = 0;
    while k < pat.len()
        invariant
            k <= pat@.len(),
            i <= s@.len(),
            s@.len() <= usize::MAX,
            i + pat@.len() <= s@.len(),
            forall|m: int| 0 <= m < k ==> s@[i + m] == pat@[m],
        decreases pat@.len() - k,
    {
        if s[i + k] != pat[k] {
            assert(s@.subrange(i as int, i + pat@.len())[k as int] != pat@[k as int]);
            return false;
        }
        k = k + 1;
    }
    assert(s@.subrange(i as int, i + pat@.len()) =~= pat@);
    true
}

/// The first position at or after `from` where `pat` stands in `s`.
pub(crate) fn find_marker(s: &Vec<char>, pat: &Vec<char>, from: usize) -> (r: Option<usize>)
    requires
        from <= s@.len(),
    ensures
        match r {
            Some(k) => find_from(s@, pat@, from as int) == Some(k as int),
            None => find_from(s@, pat@, from as int) is None,
        },
{
    let mut k = from;
    while k < s.len()
        invariant
            from <= k <= s@.len(),
            find_from(s@, pat@, from as int) == find_from(s@, pat@, k as int),
        decreases s@.len() - k,
    {
        if pat.len() > s.len() - k {
            return None;
        }
        if marker_at(s, pat, k) {
            return Some(k);
        }
        k = k + 1;
    }
    None
}

/// Whether `c` is blank.
pub(crate) fn is_blank_char(c: char) -> (r: bool)
    ensures
        r == is_blank(c),
{
    c == ' ' || c == '\t' || c == '\n' || c == '\r'
}

/// The bounds of `t[start..end]` without blanks at either end.
pub(crate) fn trim_range(t: &Vec<char>, start: usize, end: usize) -> (r: (usize, usize))
    requires
        start <= end <= t@.len(),
    ensures
        start <= r.0 <= r.1 <= end,
        t@.subrange(r.0 as int, r.1 as int) == trim_blanks(t@.subrange(start as int, end as int)),
{
    let mut a = start;
    while a < end && is_blank_char(t[a])
        invariant
            start <= a <= end <= t@.len(),
            trim_start(t@.subrange(start as int, end as int)) == trim_start(
                t@.subrange(a as int, end as int),
            ),
        decreases end - a,
    {
        assert(t@.subrange(a as int, end as int).skip(1) =~= t@.subrange(a + 1, end as int));
        a = a + 1;
    }
    assert(trim_start(t@.subrange(a as int, end as int)) == t@.subrange(a as int, end as int));
    let mut b = end;
    while b > a && is_blank_char(t[b - 1])
        invariant
            a <= b <= end <= t@.len(),
            trim_end(t@.subrange(a as int, end as int)) == trim_end(
                t@.subrange(a as int, b as int),
            ),
        decreases b - a,
    {
        assert(t@.subrange(a as int, b as int).drop_last() =~= t@.subrange(a as int, b - 1));
        b = b - 1;
    }
    assert(trim_end(t@.subrange(a as int, b as int)) == t@.subrange(a as int, b as int));
    (a, b)
}

/// Expands every `{{#str key}}` reference of `template` with the brand's
/// string of that name.
pub fn process_string_replacements(template: &str, brand_config: &BrandConfig) -> (r: Result<
    String,
    Error,
>)
    ensures
        string_result_view(r) == expand(template@, brand_config.strings@),
{
    let ghost m = brand_config.strings@;
    let t = chars_of(template);
    let open = vec!['{', '{', '#', 's', 't', 'r', ' '];
    let close = vec!['}', '}'];
    assert(open@ =~= open_marker());
    assert(close@ =~= close_marker());
    assert(open_marker().len() == 7);
    assert(close_marker().len() == 2);
    let mut out = String::new();
    let mut pos: usize = 0;
    let n = t.len();
    assert(prepend(out@, expand_from(template@, 0, m)) == expand_from(template@, 0, m)) by {
        assert(out@ =~= Seq::<char>::empty());
        match expand_from(template@, 0, m) {
            Ok(o) => assert(out@ + o =~= o),
            Err(_) => {},
        }
    }
    loop
        invariant
            pos <= t@.len(),
            n == t@.len(),
            t@ == template@,
            open@ == open_marker(),
            close@ == close_marker(),
            m == brand_config.strings@,
            open_marker().len() == 7,
            close_marker().len() == 2,
            expand(template@, m) == prepend(out@, expand_from(template@, pos as int, m)),
        decreases t@.len() - pos,
    {
        match find_marker(&t, &open, pos) {
            None => {
                out.append(template.substring_char(pos, n));
                return Ok(out);
            },
            Some(i) => {
                proof {
                    lemma_find_from(template@, open_marker(), pos as int);
                }
                match find_marker(&t, &close, i + 7) {
                    None => {
                        return Err(Error::MalformedTemplate(template.to_owned()));
                    },
                    Some(j) => {
                        proof {
                            lemma_find_from(template@, close_marker(), i + 7);
                        }
                        let (a, b) = trim_range(&t, i + 7, j);
                        let key = template.substring_char(a, b).to_owned();
                        match brand_config.strings.get(key.as_str()) {
                            None => {
                                return Err(Error::UnknownStringKey(key));
                            },
                            Some(v) => {
                                let ghost before = out@;
                                let ghost piece = template@.subrange(pos as int, i as int) + v@;
                                out.append(template.substring_char(pos, i));
                                out.append(v.as_str());
                                assert(out@ =~= before + piece);
                                proof {
                                    match expand_from(template@, j + 2, m) {
                                        Ok(o) => assert(before + (piece + o) =~= (before + piece) + o),
                                        Err(_) => {},
                                    }
                                }
                                pos = j + 2;
                            },
                        }
                    },
                }
            },
        }
    }
}

/// `find_from` returns an occurrence with none before it.
pub proof fn lemma_find_from_first(s: Seq<char>, pat: Seq<char>, from: int, k: int)
    requires
        pat.len() > 0,
        0 <= from <= k,
        occurs_at(s, pat, k),
        forall|m: int| from <= m < k ==> !occurs_at(s, pat, m),
    ensures
        find_from(s, pat, from) == Some(k),
    decreases k - from,
{
    if from < k {
        lemma_find_from_first(s, pat, from + 1, k);
    }
}

/// `find_from` finds nothing where `pat` does not occur.
pub proof fn lemma_find_from_none(s: Seq<char>, pat: Seq<char>, from: int)
    requires
        0 <= from,
        forall|m: int| from <= m ==> !occurs_at(s, pat, m),
    ensures
        find_from(s, pat, from) is None,
    decreases s.len() - from,
{
    if !(from < 0 || from >= s.len() || from + pat.len() > s.len()) {
        lemma_find_from_none(s, pat, from + 1);
    }
}

/// A template without any `{{#str ` reference expands to itself.
pub proof fn lemma_expand_plain_text(t: Seq<char>, strings: Map<Seq<char>, Seq<char>>)
    requires
        forall|i: int| !occurs_at(t, open_marker(), i),
    ensures
        expand(t, strings) == Ok::<Seq<char>, ErrorView>(t),
{
    lemma_find_from_none(t, open_marker(), 0);
    assert(t.subrange(0, t.len() as int) =~= t);
}

/// A template that is a single reference `{{#str key}}`, with a key that
/// holds no `}` and has no blanks at its ends, expands to the brand string
/// named by the key, or fails naming the key when the brand has no such string.
pub proof fn lemma_expand_single_reference(key: Seq<char>, strings: Map<Seq<char>, Seq<char>>)
    requires
        forall|i: int| 0 <= i < key.len() ==> key[i] != '}',
        key.len() > 0 ==> !is_blank(key[0]) && !is_blank(key.last()),
    ensures
        expand(open_marker() + key + close_marker(), strings) == if strings.contains_key(key) {
            Ok::<Seq<char>, ErrorView>(strings[key])
        } else {
            Err::<Seq<char>, ErrorView>(ErrorView::UnknownStringKey(key))
        },
{
    let t = open_marker() + key + close_marker();
    let n = key.len() as int;
    assert(t.subrange(0, 7) =~= open_marker());
    lemma_find_from_first(t, open_marker(), 0, 0);
    assert(t.subrange(7 + n, 9 + n) =~= close_marker());
    assert forall|m: int| 7 <= m < 7 + n implies !occurs_at(t, close_marker(), m) by {
        assert(t[m] == key[m - 7]);
        if occurs_at(t, close_marker(), m) {
            assert(t.subrange(m, m + 2)[0] == t[m]);
        }
    }
    lemma_find_from_first(t, close_marker(), 7, 7 + n);
    assert(t.subrange(7, 7 + n) =~= key);
    assert(trim_start(key) == key);
    assert(trim_end(key) == key);
    assert(t.len() == 9 + n);
    assert(expand_from(t, 9 + n, strings) == Ok::<Seq<char>, ErrorView>(t.subrange(9 + n, 9 + n)));
    assert(t.subrange(9 + n, 9 + n) =~= Seq::<char>::empty());
    if strings.contains_key(key) {
        assert(t.subrange(0, 0) + strings[key] + Seq::<char>::empty() =~= strings[key]);
    }
}

/// Expansion only ever fails on a malformed template or an unknown key.
pub proof fn lemma_expand_errors(t: Seq<char>, pos: int, strings: Map<Seq<char>, Seq<char>>)
    ensures
        expand_from(t, pos, strings) matches Err(e) ==> (e is MalformedTemplate
            || e is UnknownStringKey),
    decreases t.len() - pos,
{
    if 0 <= pos <= t.len() {
        match find_from(t, open_marker(), pos) {
            None => {},
            Some(i) => {
                lemma_find_from(t, open_marker(), pos);
                match find_from(t, close_marker(), i + 7) {
                    None => {},
                    Some(j) => {
                        lemma_find_from(t, close_marker(), i + 7);
                        lemma_expand_errors(t, j + 2, strings);
                    },
                }
            },
        }
    }
}

} // verus!
