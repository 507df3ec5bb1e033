//! The brands of a brands folder, in the order of their names.
use vstd::prelude::*;
use crate::filter::names_view;
use crate::template::chars_of;

verus! {

broadcast use vstd::seq_lib::group_to_multiset_ensures;

/// `a` comes no later than `b` in the order of strings: compared character by
/// character by code point, with a proper prefix first.
pub open spec fn text_le(a: Seq<char>, b: Seq<char>) -> bool
    decreases a.len(),
{
    if a.len() == 0 {
        true
    } else if b.len() == 0 {
        false
    } else if a[0] != b[0] {
        (a[0] as int) < (b[0] as int)
    } else {
        text_le(a.drop_first(), b.drop_first())
    }
}

/// Of two strings, one comes no later than the other.
pub proof fn lemma_text_le_total(a: Seq<char>, b: Seq<char>)
    ensures
        text_le(a, b) || text_le(b, a),
    decreases a.len(),
{
    if a.len() > 0 && b.len() > 0 && a[0] == b[0] {
        lemma_text_le_total(a.drop_first(), b.drop_first());
    }
}

/// The order of strings is transitive.
pub proof fn lemma_text_le_transitive(a: Seq<char>, b: Seq<char>, c: Seq<char>)
    requires
        text_le(a, b),
        text_le(b, c),
    ensures
        text_le(a, c),
    decreases a.len(),
{
    if a.len() > 0 && b.len() > 0 && c.len() > 0 && a[0] == b[0] && b[0] == c[0] {
        lemma_text_le_transitive(a.drop_first(), b.drop_first(), c.drop_first());
    }
}

/// `s` is in the order of strings.
pub open spec fn texts_sorted(s: Seq<Seq<char>>) -> bool {
    forall|i: int, j: int| 0 <= i < j < s.len() ==> text_le(#[trigger] s[i], #[trigger] s[j])
}

/// Whether `a` comes no later than `b` in the order of strings.
fn chars_le(a: &Vec<char>, b: &Vec<char>) -> (r: bool)
    ensures
        r == text_le(a@, b@),
{
    let mut i: usize = 0;
    assert(a@.skip(0) =~= a@);
    assert(b@.skip(0) =~= b@);
    while i < a.len() && i < b.len() && a[i] == b[i]
        invariant
            i <= a@.len(),
            i <= b@.len(),
            text_le(a@, b@) == text_le(a@.skip(i as int), b@.skip(i as int)),
        decreases a@.len() - i,
    {
        assert(a@.skip(i as int).drop_first() =~= a@.skip(i + 1));
        assert(b@.skip(i as int).drop_first() =~= b@.skip(i + 1));
        i = i + 1;
    }
    if i == a.len() {
        true
    } else if i == b.len() {
        false
    } else {
        assert(a@.skip(i as int)[0] == a@[i as int]);
        assert(b@.skip(i as int)[0] == b@[i as int]);
        a[i] < b[i]
    }
}

/// Inserting an element into a sequence adds it to the sequence's multiset.
proof fn lemma_insert_to_multiset(s: Seq<Seq<char>>, k: int, x: Seq<char>)
    requires
        0 <= k <= s.len(),
    ensures
        s.insert(k, x).to_multiset() =~= s.to_multiset().insert(x),
{
    let t = s.insert(k, x);
    assert(t.remove(k) =~= s);
    assert(t[k] == x);
    assert(t.contains(x));
}

/// The names in the order of strings; the same names, each as often.
pub fn sort_names(names: &Vec<String>) -> (r: Vec<String>)
    ensures
        names_view(r).to_multiset() == names_view(*names).to_multiset(),
        texts_sorted(names_view(r)),
{
    let mut out: Vec<String> = Vec::new();
    let mut keys: Vec<Vec<char>> = Vec::new();
    for i in 0..names.len()
        invariant
            keys@.len() == out@.len(),
            forall|j: int| 0 <= j < out@.len() ==> (#[trigger] keys@[j])@ == out@[j]@,
            names_view(out).to_multiset() == names_view(*names).take(i as int).to_multiset(),
            texts_sorted(names_view(out)),
    {
        let name = names[i].clone();
        let key = chars_of(name.as_str());
        let mut k: usize = 0;
        while k < out.len() && chars_le(&keys[k], &key)
            invariant
                k <= out@.len(),
                keys@.len() == out@.len(),
                forall|j: int| 0 <= j < out@.len() ==> (#[trigger] keys@[j])@ == out@[j]@,
                forall|j: int| 0 <= j < k ==> text_le(#[trigger] out@[j]@, key@),
            decreases out@.len() - k,
        {
            k = k + 1;
        }
        let ghost before = names_view(out);
        proof {
            if k < out@.len() {
                assert(!text_le(keys@[k as int]@, key@));
                lemma_text_le_total(out@[k as int]@, key@);
            }
        }
        out.insert(k, name);
        keys.insert(k, key);
        proof {
            let after = names_view(out);
            assert(after =~= before.insert(k as int, key@));
            lemma_insert_to_multiset(before, k as int, key@);
            assert(names_view(*names).take(i + 1) =~= names_view(*names).take(i as int).push(
                key@,
            ));
            assert forall|a: int, b: int| 0 <= a < b < after.len() implies text_le(
                #[trigger] after[a],
                #[trigger] after[b],
            ) by {
                if b < k {
                } else if a < k && b == k {
                } else if a < k && b > k {
                    assert(after[b] == before[b - 1]);
                    if k < before.len() {
                        lemma_text_le_total(before[k as int], key@);
                        assert(text_le(key@, before[k as int]));
                        if b - 1 > k {
                            lemma_text_le_transitive(key@, before[k as int], before[b - 1]);
                        }
                        lemma_text_le_transitive(after[a], key@, after[b]);
                    }
                } else if a == k {
                    assert(after[b] == before[b - 1]);
                    lemma_text_le_total(before[k as int], key@);
                    if b - 1 > k {
                        lemma_text_le_transitive(key@, before[k as int], before[b - 1]);
                    }
                } else {
                    assert(after[a] == before[a - 1]);
                    assert(after[b] == before[b - 1]);
                }
            }
        }
    }
    assert(names_view(*names).take(names@.len() as int) =~= names_view(*names));
    out
}

/// The names of the entries that are folders, in order.
pub open spec fn folder_names(entries: Seq<(String, bool)>) -> Seq<Seq<char>>
    decreases entries.len(),
{
    if entries.len() == 0 {
        Seq::empty()
    } else {
        folder_names(entries.drop_last()) + if entries.last().1 {
            seq![entries.last().0@]
        } else {
            Seq::empty()
        }
    }
}

/// The brands of a brands folder whose entries are `entries`, each a name
/// and whether it is a folder: the names of the folders, in the order of
/// strings.
pub fn discover_brands(entries: &Vec<(String, bool)>) -> (r: Vec<String>)
    ensures
        names_view(r).to_multiset() == folder_names(entries@).to_multiset(),
        texts_sorted(names_view(r)),
{
    let mut folders: Vec<String> = Vec::new();
    for i in 0..entries.len()
        invariant
            names_view(folders) == folder_names(entries@.take(i as int)),
    {
        let ghost before = names_view(folders);
        assert(entries@.take(i + 1).drop_last() =~= entries@.take(i as int));
        if entries[i].1 {
            folders.push(entries[i].0.clone());
            assert(names_view(folders) =~= before.push(entries@[i as int].0@));
        }
        assert(names_view(folders) =~= folder_names(entries@.take(i + 1)));
    }
    assert(entries@.take(entries@.len() as int) =~= entries@);
    sort_names(&folders)
}

} // verus!
