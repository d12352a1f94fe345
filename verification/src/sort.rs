//! Texts in order, each once.
use crate::text::{text_le, texts};
use rayon::slice::ParallelSliceMut;
use vstd::prelude::*;

verus! {

broadcast use {vstd::seq_lib::group_seq_properties, crate::text::lemma_texts_push};

/// Whether no text comes before one that stands to its left.
pub open spec fn sorted(s: Seq<Seq<char>>) -> bool {
    forall|i: int, j: int| 0 <= i <= j < s.len() ==> text_le(#[trigger] s[i], #[trigger] s[j])
}

/// Calls `par_sort` of the `rayon` crate on a vector of strings. It keeps the
/// strings and puts them into the order of `String`, which is that of the
/// bytes and so of the code points of their characters.
#[verifier::external_body]
fn par_sort(strings: &mut Vec<String>)
    ensures
        texts(final(strings)@).to_multiset() == texts(old(strings)@).to_multiset(),
        sorted(texts(final(strings)@)),
{
    strings.par_sort();
}

proof fn lemma_text_le_antisymmetric(a: Seq<char>, b: Seq<char>)
    requires
        text_le(a, b),
        text_le(b, a),
    ensures
        a == b,
    decreases a.len(),
{
    if a.len() == 0 {
        assert(a =~= b);
    } else {
        lemma_text_le_antisymmetric(a.drop_first(), b.drop_first());
        assert(a =~= seq![a[0]] + a.drop_first());
        assert(b =~= seq![b[0]] + b.drop_first());
    }
}

proof fn lemma_same_multiset_same_set(a: Seq<Seq<char>>, b: Seq<Seq<char>>)
    requires
        a.to_multiset() == b.to_multiset(),
    ensures
        a.to_set() == b.to_set(),
{
    a.to_multiset_ensures();
    b.to_multiset_ensures();
    assert forall|x: Seq<char>| a.to_set().contains(x) <==> b.to_set().contains(x) by {
        assert(a.contains(x) <==> a.to_multiset().count(x) > 0);
        assert(b.contains(x) <==> b.to_multiset().count(x) > 0);
    }
    assert(a.to_set() =~= b.to_set());
}

/// The strings in order, each once.
pub fn sort_dedup(strings: Vec<String>) -> (res: Vec<String>)
    ensures
        sorted(texts(res@)),
        texts(res@).no_duplicates(),
        texts(res@).to_set() == texts(strings@).to_set(),
{
    let mut strings = strings;
    let ghost before = texts(strings@);
    par_sort(&mut strings);
    let ghost all = texts(strings@);
    proof {
        lemma_same_multiset_same_set(all, before);
    }
    let mut res: Vec<String> = Vec::new();
    let mut i: usize = 0;
    while i < strings.len()
        invariant
            i <= strings@.len(),
            all == texts(strings@),
            sorted(all),
            sorted(texts(res@)),
            texts(res@).no_duplicates(),
            texts(res@).to_set() == all.take(i as int).to_set(),
            forall|j: int, k: int|
                0 <= j < res@.len() && i <= k < all.len() ==> text_le(
                    #[trigger] texts(res@)[j],
                    #[trigger] all[k],
                ),
            i == 0 ==> res@.len() == 0,
            i > 0 ==> res@.len() > 0 && texts(res@).last() == all[i - 1],
        decreases strings@.len() - i,
    {
        let ghost kept = texts(res@);
        let ghost next = all[i as int];
        assert(all.take(i + 1) =~= all.take(i as int).push(next));
        if i == 0 || !strings[i].eq(&strings[i - 1]) {
            res.push(strings[i].clone());
            proof {
                assert(texts(res@) =~= kept.push(next));
                if kept.contains(next) {
                    let j = choose|j: int| 0 <= j < kept.len() && kept[j] == next;
                    assert(text_le(kept[j], kept[kept.len() - 1]));
                    assert(text_le(kept[kept.len() - 1], all[i as int]));
                    assert(text_le(next, kept.last()));
                    lemma_text_le_antisymmetric(kept.last(), next);
                    assert(strings@[i as int]@ == all[i as int]);
                    assert(strings@[i - 1]@ == all[i - 1]);
                }
                assert(text_le(next, next)) by {
                    assert(text_le(all[i as int], all[i as int]));
                }
            }
        } else {
            proof {
                assert(kept.contains(kept.last()));
            }
        }
        proof {
            assert forall|x: Seq<char>| texts(res@).contains(x) <==> all.take(i + 1).contains(x) by {
                assert(kept.to_set().contains(x) <==> all.take(i as int).to_set().contains(x));
            }
            assert(texts(res@).to_set() =~= all.take(i + 1).to_set());
        }
        i += 1;
    }
    proof {
        assert(all.take(i as int) =~= all);
    }
    res
}

} // verus!
