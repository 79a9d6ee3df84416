//! Texts in their order.

use crate::text::{chars_of, texts};
use vstd::prelude::*;
use vstd::relations::sorted_by;
use vstd::seq_lib::group_to_multiset_ensures;

verus! {

/// `a` comes before `b`, or is the same: the first character in which they differ
/// has the smaller code point in `a`, or `b` goes on where `a` ends.
pub open spec fn precedes(a: Seq<char>, b: Seq<char>) -> bool
    decreases a.len(),
{
    if a.len() == 0 {
        true
    } else if b.len() == 0 {
        false
    } else if a[0] != b[0] {
        (a[0] as u32) < (b[0] as u32)
    } else {
        precedes(a.skip(1), b.skip(1))
    }
}

/// The relation by which texts are ordered.
pub open spec fn text_order() -> spec_fn(Seq<char>, Seq<char>) -> bool {
    |a: Seq<char>, b: Seq<char>| precedes(a, b)
}

/// A list holds the same texts as another, each as often, in their order.
pub open spec fn is_sorting(listing: Seq<Seq<char>>, of: Seq<Seq<char>>) -> bool {
    sorted_by(listing, text_order()) && listing.to_multiset() == of.to_multiset()
}

/// Every text precedes itself.
proof fn lemma_precedes_reflexive(a: Seq<char>)
    ensures
        precedes(a, a),
    decreases a.len(),
{
    if a.len() > 0 {
        lemma_precedes_reflexive(a.skip(1));
    }
}

/// Two characters with the same code point are the same.
pub(crate) proof fn lemma_code_points_differ(a: char, b: char)
    ensures
        a == b <==> a as u32 == b as u32,
{
}

/// Of two texts, one precedes the other.
proof fn lemma_precedes_total(a: Seq<char>, b: Seq<char>)
    ensures
        precedes(a, b) || precedes(b, a),
    decreases a.len(),
{
    if a.len() > 0 && b.len() > 0 {
        lemma_code_points_differ(a[0], b[0]);
        if a[0] == b[0] {
            lemma_precedes_total(a.skip(1), b.skip(1));
        }
    }
}

/// Two texts that precede each other are the same.
proof fn lemma_precedes_antisymmetric(a: Seq<char>, b: Seq<char>)
    requires
        precedes(a, b),
        precedes(b, a),
    ensures
        a == b,
    decreases a.len(),
{
    if a.len() > 0 && b.len() > 0 && a[0] == b[0] {
        lemma_precedes_antisymmetric(a.skip(1), b.skip(1));
        assert(a =~= seq![a[0]] + a.skip(1));
        assert(b =~= seq![b[0]] + b.skip(1));
    } else {
        assert(a =~= b);
    }
}

/// What precedes a text that precedes another, precedes that.
proof fn lemma_precedes_transitive(a: Seq<char>, b: Seq<char>, c: Seq<char>)
    requires
        precedes(a, b),
        precedes(b, c),
    ensures
        precedes(a, c),
    decreases a.len(),
{
    if a.len() > 0 && b.len() > 0 && c.len() > 0 && a[0] == b[0] && b[0] == c[0] {
        lemma_precedes_transitive(a.skip(1), b.skip(1), c.skip(1));
    }
}

/// A list of texts can be put in order in one way only.
pub proof fn law_sorting_is_unique(a: Seq<Seq<char>>, b: Seq<Seq<char>>, of: Seq<Seq<char>>)
    requires
        is_sorting(a, of),
        is_sorting(b, of),
    ensures
        a == b,
    decreases a.len(),
{
    broadcast use group_to_multiset_ensures;

    assert(a.len() == a.to_multiset().len() && b.len() == b.to_multiset().len());
    if a.len() > 0 {
        let x = a.last();
        let y = b.last();
        assert(a.contains(x) && b.contains(y));
        assert(b.to_multiset().count(x) > 0 && a.to_multiset().count(y) > 0);
        assert(precedes(x, y)) by {
            let k = choose|k: int| 0 <= k < b.len() && b[k] == x;
            if k < b.len() - 1 {
                assert(text_order()(b[k], b[b.len() - 1]));
            } else {
                lemma_precedes_reflexive(x);
            }
        }
        assert(precedes(y, x)) by {
            let k = choose|k: int| 0 <= k < a.len() && a[k] == y;
            if k < a.len() - 1 {
                assert(text_order()(a[k], a[a.len() - 1]));
            } else {
                lemma_precedes_reflexive(x);
            }
        }
        lemma_precedes_antisymmetric(x, y);
        assert(a.remove(a.len() - 1) =~= a.drop_last());
        assert(b.remove(b.len() - 1) =~= b.drop_last());
        law_sorting_is_unique(a.drop_last(), b.drop_last(), a.drop_last());
        assert(a =~= a.drop_last().push(x));
        assert(b =~= b.drop_last().push(y));
    } else {
        assert(a =~= b);
    }
}

/// Whether `a` comes before `b`, or is the same.
pub fn is_before(a: &str, b: &str) -> (res: bool)
    ensures
        res == precedes(a@, b@),
{
    let ca = chars_of(a);
    let cb = chars_of(b);
    let mut i: usize = 0;
    assert(a@.skip(0) =~= a@ && b@.skip(0) =~= b@);
    while i < ca.len() && i < cb.len() && ca[i] == cb[i]
        invariant
            i <= ca.len(),
            i <= cb.len(),
            ca@ == a@,
            cb@ == b@,
            precedes(a@, b@) == precedes(a@.skip(i as int), b@.skip(i as int)),
        decreases ca.len() - i,
    {
        assert(a@.skip(i as int).skip(1) =~= a@.skip(i + 1));
        assert(b@.skip(i as int).skip(1) =~= b@.skip(i + 1));
        i += 1;
    }
    if i == ca.len() {
        true
    } else if i == cb.len() {
        false
    } else {
        (ca[i] as u32) < (cb[i] as u32)
    }
}

/// A text is put into its place in an ordered list.
fn insert_in_order(list: &mut Vec<String>, s: String)
    requires
        sorted_by(texts(old(list)@), text_order()),
    ensures
        sorted_by(texts(final(list)@), text_order()),
        texts(final(list)@).to_multiset() == texts(old(list)@).to_multiset().insert(s@),
{
    let ghost before = texts(list@);
    let mut i: usize = 0;
    while i < list.len() && is_before(list[i].as_str(), s.as_str())
        invariant
            i <= list.len(),
            list@ == old(list)@,
            before == texts(list@),
            forall|k: int| 0 <= k < i ==> precedes(#[trigger] before[k], s@),
        decreases list.len() - i,
    {
        assert(before[i as int] == list@[i as int]@);
        i += 1;
    }
    proof {
        if i < list.len() {
            assert(before[i as int] == list@[i as int]@);
            lemma_precedes_total(before[i as int], s@);
        }
    }
    let ghost x = s@;
    list.insert(i, s);
    let ghost after = texts(list@);
    assert(after =~= before.insert(i as int, x));
    assert forall|j: int, k: int| 0 <= j < k < after.len() implies #[trigger] text_order()(
        after[j],
        after[k],
    ) by {
        if k < i {
            assert(text_order()(before[j], before[k]));
        } else if k == i {
            assert(precedes(before[j], x));
        } else if j > i {
            assert(text_order()(before[j - 1], before[k - 1]));
        } else {
            if i < k - 1 {
                assert(text_order()(before[i as int], before[k - 1]));
                lemma_precedes_transitive(x, before[i as int], before[k - 1]);
            }
            assert(precedes(x, before[k - 1]));
            if j < i {
                assert(text_order()(before[j], before[k - 1]));
            }
        }
    }
    proof {
        vstd::seq_lib::to_multiset_insert(before, i as int, x);
    }
}

/// The texts in their order.
pub fn sorted(list: Vec<String>) -> (res: Vec<String>)
    ensures
        is_sorting(texts(res@), texts(list@)),
{
    let mut res: Vec<String> = Vec::new();
    let mut i: usize = 0;
    let ghost all = texts(list@);
    assert(texts(res@) =~= all.take(0));
    while i < list.len()
        invariant
            i <= list.len(),
            all == texts(list@),
            is_sorting(texts(res@), all.take(i as int)),
        decreases list.len() - i,
    {
        assert(all.take(i + 1) =~= all.take(i as int).push(all[i as int]));
        assert(all[i as int] == list@[i as int]@);
        proof {
            vstd::seq_lib::to_multiset_build(all.take(i as int), all[i as int]);
        }
        insert_in_order(&mut res, list[i].clone());
        i += 1;
    }
    assert(all.take(i as int) =~= all);
    res
}

} // verus!
