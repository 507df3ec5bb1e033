//! File paths as strings, joined with `/` as separator.
use vstd::prelude::*;
use vstd::string::*;

verus! {

/// `rel` taken relative to `base`: an absolute `rel` (one that starts with
/// `/`) stands alone, an empty `base` adds nothing, and otherwise the two are
/// joined by a single `/` unless `base` already ends with one.
pub open spec fn joined(base: Seq<char>, rel: Seq<char>) -> Seq<char> {
    if rel.len() > 0 && rel[0] == '/' {
        rel
    } else if base.len() == 0 {
        rel
    } else if base.last() == '/' {
        base + rel
    } else {
        base + seq!['/'] + rel
    }
}

/// Joins `rel` onto `base`, as adjoining one path to another does on Unix.
pub fn join_path(base: &str, rel: &str) -> (r: String)
    ensures
        r@ == joined(base@, rel@),
{
    let rel_len = rel.unicode_len();
    if rel_len > 0 && rel.get_char(0) == '/' {
        return rel.to_owned();
    }
    let base_len = base.unicode_len();
    if base_len == 0 {
        return rel.to_owned();
    }
    let mut out = base.to_owned();
    if base.get_char(base_len - 1) != '/' {
        proof {
            reveal_strlit("/");
        }
        out.append("/");
    }
    out.append(rel);
    out
}

/// Whether something exists at `path` on the file system, as
/// `std::path::Path::exists` answers. The answer depends on the file system
/// at the moment of the call, so nothing is stated of it.
#[verifier::external_body]
pub(crate) fn path_exists(path: &str) -> bool {
    std::path::Path::new(path).exists()
}

/// Whether a folder exists at `path`, as `std::path::Path::is_dir` answers.
/// The answer depends on the file system at the moment of the call, so
/// nothing is stated of it.
#[verifier::external_body]
pub(crate) fn path_is_dir(path: &str) -> bool {
    std::path::Path::new(path).is_dir()
}

/// The position of the last `/` among the first `k` characters of `p`, or -1.
pub open spec fn last_separator(p: Seq<char>, k: int) -> int
    decreases k,
{
    if k <= 0 || k > p.len() {
        -1
    } else if p[k - 1] == '/' {
        k - 1
    } else {
        last_separator(p, k - 1)
    }
}

/// The folder that holds `p`, for a path written without a trailing `/`:
/// what precedes its last `/` (the root `/` for a top-level entry); none for
/// the root itself or for a path without `/`.
pub open spec fn parent_of(p: Seq<char>) -> Option<Seq<char>> {
    let i = last_separator(p, p.len() as int);
    if i < 0 {
        None
    } else if i == 0 {
        if p.len() == 1 {
            None
        } else {
            Some(seq!['/'])
        }
    } else {
        Some(p.subrange(0, i))
    }
}

/// A parent is shorter than its child.
pub proof fn lemma_parent_shorter(p: Seq<char>)
    ensures
        parent_of(p) matches Some(q) ==> q.len() < p.len(),
{
    lemma_last_separator(p, p.len() as int);
}

/// `last_separator` finds a `/` before position `k`, or none.
proof fn lemma_last_separator(p: Seq<char>, k: int)
    requires
        0 <= k <= p.len(),
    ensures
        -1 <= last_separator(p, k) < k,
        last_separator(p, k) >= 0 ==> p[last_separator(p, k)] == '/',
        forall|m: int| last_separator(p, k) < m < k ==> p[m] != '/',
    decreases k,
{
    if k > 0 && p[k - 1] != '/' {
        lemma_last_separator(p, k - 1);
    }
}

/// `p` followed by the folders that hold it, innermost first.
pub open spec fn ancestor_chain(p: Seq<char>) -> Seq<Seq<char>>
    decreases p.len(),
{
    match parent_of(p) {
        Some(q) => {
            proof {
                lemma_parent_shorter(p);
            }
            seq![p] + ancestor_chain(q)
        },
        None => seq![p],
    }
}

/// The first position from `i` on at which both answers are `true`.
pub open spec fn first_both_from(a: Seq<bool>, b: Seq<bool>, i: int) -> Option<int>
    decreases a.len() - i,
{
    if i < 0 || i >= a.len() || i >= b.len() {
        None
    } else if a[i] && b[i] {
        Some(i)
    } else {
        first_both_from(a, b, i + 1)
    }
}

/// The repository root among the folders `chain`, innermost first, where
/// `has_config[i]` says that folder `i` holds `config.json` and
/// `has_brands[i]` that it holds a `brands` folder: the nearest that holds
/// both, or none.
pub open spec fn repo_root_choice(
    chain: Seq<Seq<char>>,
    has_config: Seq<bool>,
    has_brands: Seq<bool>,
) -> Option<Seq<char>> {
    match first_both_from(has_config, has_brands, 0) {
        Some(i) => Some(chain[i]),
        None => None,
    }
}

/// What `first_both_from` finds: the first position from `i` on where both
/// answers hold, or none when they never both hold from there.
proof fn lemma_first_both_from(a: Seq<bool>, b: Seq<bool>, i: int)
    requires
        0 <= i,
        a.len() == b.len(),
    ensures
        first_both_from(a, b, i) matches Some(k) ==> i <= k < a.len() && a[k] && b[k] && forall|
            j: int,
        |
            i <= j < k ==> !(a[j] && b[j]),
        first_both_from(a, b, i) is None ==> forall|j: int| i <= j < a.len() ==> !(a[j] && b[j]),
    decreases a.len() - i,
{
    if i < a.len() && !(a[i] && b[i]) {
        lemma_first_both_from(a, b, i + 1);
    }
}

/// The repository root is the nearest folder of the chain that holds both a
/// `config.json` file and a `brands` folder; there is none only when no
/// folder of the chain holds both.
pub proof fn lemma_repo_root_is_nearest(
    chain: Seq<Seq<char>>,
    has_config: Seq<bool>,
    has_brands: Seq<bool>,
)
    requires
        has_config.len() == chain.len(),
        has_brands.len() == chain.len(),
    ensures
        repo_root_choice(chain, has_config, has_brands) matches Some(d) ==> exists|i: int|
            0 <= i < chain.len() && has_config[i] && has_brands[i] && d == chain[i] && forall|
                j: int,
            |
                0 <= j < i ==> !(has_config[j] && has_brands[j]),
        repo_root_choice(chain, has_config, has_brands) is None ==> forall|j: int|
            0 <= j < chain.len() ==> !(has_config[j] && has_brands[j]),
{
    lemma_first_both_from(has_config, has_brands, 0);
}

/// The folder that holds `p`, if any.
pub fn parent_dir(p: &str) -> (r: Option<String>)
    ensures
        match r {
            Some(q) => parent_of(p@) == Some(q@),
            None => parent_of(p@) is None,
        },
{
    let n = p.unicode_len();
    let mut k = n;
    while k > 0 && p.get_char(k - 1) != '/'
        invariant
            k <= n,
            n == p@.len(),
            last_separator(p@, n as int) == last_separator(p@, k as int),
        decreases k,
    {
        k = k - 1;
    }
    if k == 0 {
        return None;
    }
    let i = k - 1;
    if i == 0 {
        if n == 1 {
            None
        } else {
            proof {
                reveal_strlit("/");
            }
            Some("/".to_owned())
        }
    } else {
        Some(p.substring_char(0, i).to_owned())
    }
}

/// The strings of a list, as character sequences.
pub open spec fn texts_view(v: Vec<String>) -> Seq<Seq<char>> {
    v@.map_values(|s: String| s@)
}

/// The view of an optional string.
pub open spec fn opt_text_view(v: Option<String>) -> Option<Seq<char>> {
    match v {
        Some(s) => Some(s@),
        None => None,
    }
}

/// `start` followed by the folders that hold it, innermost first.
pub fn ancestor_paths(start: &str) -> (r: Vec<String>)
    ensures
        texts_view(r) == ancestor_chain(start@),
{
    let mut out: Vec<String> = Vec::new();
    let mut dir = start.to_owned();
    assert(texts_view(out) + ancestor_chain(dir@) =~= ancestor_chain(start@));
    loop
        invariant
            ancestor_chain(start@) == texts_view(out) + ancestor_chain(dir@),
        decreases dir@.len(),
    {
        let up = parent_dir(dir.as_str());
        let ghost before = texts_view(out);
        let ghost d = dir@;
        out.push(dir);
        assert(texts_view(out) =~= before.push(d));
        match up {
            None => {
                assert(texts_view(out) =~= before + ancestor_chain(d));
                return out;
            },
            Some(q) => {
                proof {
                    lemma_parent_shorter(d);
                    assert(before + ancestor_chain(d) =~= texts_view(out) + ancestor_chain(q@));
                }
                dir = q;
            },
        }
    }
}

/// The first position at which both answers are `true`.
pub fn root_among(has_config: &Vec<bool>, has_brands: &Vec<bool>) -> (r: Option<usize>)
    requires
        has_config@.len() == has_brands@.len(),
    ensures
        match r {
            Some(i) => i < has_config@.len() && first_both_from(has_config@, has_brands@, 0) == Some(
                i as int,
            ),
            None => first_both_from(has_config@, has_brands@, 0) is None,
        },
{
    let mut i: usize = 0;
    while i < has_config.len()
        invariant
            has_config@.len() == has_brands@.len(),
            i <= has_config@.len(),
            first_both_from(has_config@, has_brands@, 0) == first_both_from(
                has_config@,
                has_brands@,
                i as int,
            ),
        decreases has_config@.len() - i,
    {
        if has_config[i] && has_brands[i] {
            return Some(i);
        }
        i = i + 1;
    }
    None
}

/// Walks up from `start` to the nearest folder that holds a `config.json`
/// file and a `brands` folder, asking the file system about `start` and
/// each folder that holds it; none when no such folder exists. What the
/// file system answers is not stated; the folder returned is the nearest for
/// which both answers were yes.
pub fn find_repo_root_from(start: &str) -> (r: Option<String>)
    ensures
        exists|has_config: Seq<bool>, has_brands: Seq<bool>|
            has_config.len() == ancestor_chain(start@).len() && has_brands.len()
                == ancestor_chain(start@).len() && opt_text_view(r) == repo_root_choice(
                ancestor_chain(start@),
                has_config,
                has_brands,
            ),
        exists|found: Seq<bool>|
            #![trigger found.len()]
            found.len() == ancestor_chain(start@).len() && (r matches Some(d) ==> exists|i: int|
                0 <= i < found.len() && found[i] && d@ == ancestor_chain(start@)[i] && forall|
                    j: int,
                |
                    0 <= j < i ==> !found[j]) && (r is None ==> forall|j: int|
                0 <= j < found.len() ==> !found[j]),
{
    let chain = ancestor_paths(start);
    let mut has_config: Vec<bool> = Vec::new();
    let mut has_brands: Vec<bool> = Vec::new();
    let n = chain.len();
    let mut k: usize = 0;
    while k < n
        invariant
            n == chain@.len(),
            k <= n,
            has_config@.len() == k,
            has_brands@.len() == k,
        decreases n - k,
    {
        let config = join_path(chain[k].as_str(), "config.json");
        let brands = join_path(chain[k].as_str(), "brands");
        has_config.push(path_exists(config.as_str()));
        has_brands.push(path_is_dir(brands.as_str()));
        k = k + 1;
    }
    let r = match root_among(&has_config, &has_brands) {
        Some(i) => Some(chain[i].clone()),
        None => None,
    };
    proof {
        if let Some(i) = first_both_from(has_config@, has_brands@, 0) {
            assert(texts_view(chain)[i] == chain@[i]@);
        }
    }
    assert(has_config@.len() == ancestor_chain(start@).len() && has_brands@.len()
        == ancestor_chain(start@).len() && opt_text_view(r) == repo_root_choice(
        ancestor_chain(start@),
        has_config@,
        has_brands@,
    ));
    proof {
        let c = ancestor_chain(start@);
        let found = Seq::new(has_config@.len(), |j: int| has_config@[j] && has_brands@[j]);
        lemma_repo_root_is_nearest(c, has_config@, has_brands@);
        match &r {
            Some(d) => {
                let i = choose|i: int|
                    0 <= i < c.len() && has_config@[i] && has_brands@[i] && d@ == c[i] && forall|
                        j: int,
                    |
                        0 <= j < i ==> !(has_config@[j] && has_brands@[j]);
                assert(found[i]);
                assert forall|j: int| 0 <= j < i implies !found[j] by {
                    assert(!(has_config@[j] && has_brands@[j]));
                }
            },
            None => {
                assert forall|j: int| 0 <= j < found.len() implies !found[j] by {
                    assert(!(has_config@[j] && has_brands@[j]));
                }
            },
        }
        assert(found.len() == ancestor_chain(start@).len() && (r matches Some(d) ==> exists|i: int|
            0 <= i < found.len() && found[i] && d@ == ancestor_chain(start@)[i] && forall|j: int|
                0 <= j < i ==> !found[j]) && (r is None ==> forall|j: int|
            0 <= j < found.len() ==> !found[j]));
    }
    r
}

} // verus!
