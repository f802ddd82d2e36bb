//! Sets of texts, kept as lists in the order of texts.
use crate::text::{
    lemma_text_less_irreflexive, lemma_text_less_total, lemma_text_less_transitive, same_text,
    text_before, text_less, texts,
};
use vstd::prelude::*;

verus! {

/// A list in order with one text put in, where it is not there yet.
pub open spec fn insert_text(list: Seq<Seq<char>>, x: Seq<char>) -> Seq<Seq<char>>
    decreases list.len(),
{
    if list.len() == 0 {
        seq![x]
    } else if list[0] == x {
        list
    } else if text_less(list[0], x) {
        seq![list[0]] + insert_text(list.drop_first(), x)
    } else {
        seq![x] + list
    }
}

/// The texts of a list, in order, each once.
pub open spec fn sorted_texts(list: Seq<Seq<char>>) -> Seq<Seq<char>>
    decreases list.len(),
{
    if list.len() == 0 {
        seq![]
    } else {
        insert_text(sorted_texts(list.drop_last()), list.last())
    }
}

/// Whether the texts of a list stand in order, each once.
pub open spec fn strictly_sorted(list: Seq<Seq<char>>) -> bool {
    forall|i: int, j: int| 0 <= i < j < list.len() ==> text_less(#[trigger] list[i], #[trigger] list[j])
}

/// Puts a text into a list in order.
pub(crate) fn insert_sorted(list: &mut Vec<String>, x: String)
    ensures
        texts(final(list)@) == insert_text(texts(old(list)@), x@),
{
    let ghost m = texts(list@);
    let ghost k = x@;
    let mut i: usize = 0;
    assert(m.skip(0) =~= m);
    assert(m.take(0) + insert_text(m, k) =~= insert_text(m, k));
    while i < list.len() && text_before(list[i].as_str(), x.as_str())
        invariant
            texts(list@) == m,
            x@ == k,
            i <= list@.len(),
            insert_text(m, k) == m.take(i as int) + insert_text(m.skip(i as int), k),
        decreases list@.len() - i,
    {
        proof {
            let rest = m.skip(i as int);
            assert(rest[0] == list@[i as int]@);
            assert(rest.drop_first() =~= m.skip(i + 1));
            lemma_text_less_irreflexive(k);
            assert(m.take(i as int) + (seq![rest[0]] + insert_text(m.skip(i + 1), k)) =~= m.take(
                i + 1,
            ) + insert_text(m.skip(i + 1), k));
        }
        i += 1;
    }
    let ghost rest = m.skip(i as int);
    if i < list.len() {
        assert(rest[0] == list@[i as int]@);
        if same_text(list[i].as_str(), x.as_str()) {
            assert(m =~= m.take(i as int) + rest);
            return;
        }
    }
    list.insert(i, x);
    assert(texts(list@) =~= m.take(i as int) + (seq![k] + rest));
    proof {
        if rest.len() == 0 {
            assert(seq![k] + rest =~= seq![k]);
        }
    }
}

/// The texts of a list, in order, each once.
pub(crate) fn sort_texts(list: &Vec<String>) -> (r: Vec<String>)
    ensures
        texts(r@) == sorted_texts(texts(list@)),
{
    let mut out: Vec<String> = Vec::new();
    let mut i: usize = 0;
    assert(texts(out@) =~= seq![]);
    assert(texts(list@).take(0) =~= seq![]);
    while i < list.len()
        invariant
            i <= list@.len(),
            texts(out@) == sorted_texts(texts(list@).take(i as int)),
        decreases list@.len() - i,
    {
        proof {
            let t = texts(list@).take(i + 1);
            assert(t.drop_last() =~= texts(list@).take(i as int));
            assert(t.last() == list@[i as int]@);
        }
        insert_sorted(&mut out, list[i].clone());
        i += 1;
    }
    assert(texts(list@).take(list@.len() as int) =~= texts(list@));
    out
}

pub proof fn lemma_insert_text_contains(list: Seq<Seq<char>>, x: Seq<char>, y: Seq<char>)
    ensures
        insert_text(list, x).contains(y) <==> (y == x || list.contains(y)),
    decreases list.len(),
{
    let r = insert_text(list, x);
    if list.len() == 0 {
        assert(r[0] == x);
    } else if list[0] == x {
        assert(list.contains(x));
    } else if text_less(list[0], x) {
        let rest = list.drop_first();
        lemma_insert_text_contains(rest, x, y);
        let tail = insert_text(rest, x);
        if tail.contains(y) {
            let i = choose|i: int| 0 <= i < tail.len() && tail[i] == y;
            assert(r[i + 1] == y);
        }
        if rest.contains(y) {
            let i = choose|i: int| 0 <= i < rest.len() && rest[i] == y;
            assert(list[i + 1] == y);
        }
        assert(r[0] == list[0]);
        if list.contains(y) && y != list[0] {
            let i = choose|i: int| 0 <= i < list.len() && list[i] == y;
            assert(rest[i - 1] == y);
        }
        if r.contains(y) && y != list[0] {
            let i = choose|i: int| 0 <= i < r.len() && r[i] == y;
            assert(tail[i - 1] == y);
        }
    } else {
        assert(r[0] == x);
        if list.contains(y) {
            let i = choose|i: int| 0 <= i < list.len() && list[i] == y;
            assert(r[i + 1] == y);
        }
        if r.contains(y) && y != x {
            let i = choose|i: int| 0 <= i < r.len() && r[i] == y;
            assert(list[i - 1] == y);
        }
    }
}

pub proof fn lemma_insert_text_sorted(list: Seq<Seq<char>>, x: Seq<char>)
    requires
        strictly_sorted(list),
    ensures
        strictly_sorted(insert_text(list, x)),
    decreases list.len(),
{
    if list.len() > 0 {
        let rest = list.drop_first();
        let r = insert_text(list, x);
        assert(strictly_sorted(rest)) by {
            assert forall|i: int, j: int| 0 <= i < j < rest.len() implies text_less(
                #[trigger] rest[i],
                #[trigger] rest[j],
            ) by {
                assert(rest[i] == list[i + 1] && rest[j] == list[j + 1]);
            }
        }
        if list[0] == x {
        } else if text_less(list[0], x) {
            lemma_insert_text_sorted(rest, x);
            let tail = insert_text(rest, x);
            assert forall|i: int, j: int| 0 <= i < j < r.len() implies text_less(
                #[trigger] r[i],
                #[trigger] r[j],
            ) by {
                assert(r[j] == tail[j - 1]);
                if i == 0 {
                    assert(tail.contains(tail[j - 1]));
                    lemma_insert_text_contains(rest, x, tail[j - 1]);
                    if tail[j - 1] != x {
                        let k = choose|k: int| 0 <= k < rest.len() && rest[k] == tail[j - 1];
                        assert(list[k + 1] == r[j]);
                    }
                } else {
                    assert(r[i] == tail[i - 1]);
                }
            }
        } else {
            lemma_text_less_total(list[0], x);
            assert forall|i: int, j: int| 0 <= i < j < r.len() implies text_less(
                #[trigger] r[i],
                #[trigger] r[j],
            ) by {
                assert(r[j] == list[j - 1]);
                if i == 0 {
                    if j > 1 {
                        assert(text_less(list[0], list[j - 1]));
                        lemma_text_less_transitive(x, list[0], list[j - 1]);
                    }
                } else {
                    assert(r[i] == list[i - 1]);
                }
            }
        }
    }
}

/// The texts of a list put in order stand in order, each once, and are those of
/// the list.
pub proof fn law_sorted_texts(list: Seq<Seq<char>>, y: Seq<char>)
    ensures
        strictly_sorted(sorted_texts(list)),
        sorted_texts(list).contains(y) <==> list.contains(y),
    decreases list.len(),
{
    if list.len() > 0 {
        let rest = list.drop_last();
        law_sorted_texts(rest, y);
        lemma_insert_text_sorted(sorted_texts(rest), list.last());
        lemma_insert_text_contains(sorted_texts(rest), list.last(), y);
        if rest.contains(y) {
            let i = choose|i: int| 0 <= i < rest.len() && rest[i] == y;
            assert(list[i] == y);
        }
        if list.contains(y) && y != list.last() {
            let i = choose|i: int| 0 <= i < list.len() && list[i] == y;
            assert(rest[i] == y);
        }
        assert(list[list.len() - 1] == list.last());
    }
}

} // verus!
