//! Rank fusion: at which places of which lists each document stands.
use crate::query::engine::{KeyScore, KeyScoreV};
use crate::service::paging::{VectorList, VectorListV, list_views, rank_scores, ranks_before};
use crate::sorting::{law_sorting_keeps_items, sorted_by, views_of};
use crate::storage::keyed::{
    Keyed, KeyedList, keyed_find, keyed_put, keyed_sorted, law_found_item_has_key,
    law_put_item_is_found,
};
use crate::text::{lemma_text_less_irreflexive, text_less};
use vstd::prelude::*;

verus! {

/// A list's share in a document's fused score: the list's weight, a binary64
/// number by its rank (see [`crate::json::Number`]), and the place that the
/// document has in the list, from 1.
#[derive(Debug, Clone, Copy, PartialEq, Eq, Structural)]
pub struct Share {
    pub weight: u64,
    pub place: usize,
}

/// A document's key, with its shares in the order of the lists.
#[derive(Debug, PartialEq, Eq)]
pub struct FusedKey {
    pub key: String,
    pub shares: Vec<Share>,
}

/// The mathematical value of a [`FusedKey`].
pub struct FusedKeyV {
    pub key: Seq<char>,
    pub shares: Seq<Share>,
}

impl View for FusedKey {
    type V = FusedKeyV;

    open spec fn view(&self) -> FusedKeyV {
        FusedKeyV { key: self.key@, shares: self.shares@ }
    }
}

impl Keyed for FusedKey {
    open spec fn key_of_item(item: FusedKeyV) -> Seq<char> {
        item.key
    }

    fn key(&self) -> (r: &str) {
        self.key.as_str()
    }
}

/// The shares that a key has.
pub open spec fn shares_of(fused: Seq<FusedKeyV>, key: Seq<char>) -> Seq<Share> {
    match keyed_find::<FusedKey>(fused, key) {
        Some(f) => f.shares,
        None => seq![],
    }
}

/// The fused keys with one more share.
pub open spec fn with_share(fused: Seq<FusedKeyV>, key: Seq<char>, share: Share) -> Seq<FusedKeyV> {
    keyed_put::<FusedKey>(fused, (FusedKeyV { key, shares: shares_of(fused, key).push(share) }))
}

/// The fused keys with the shares of the first `n` documents of a ranked list.
pub open spec fn with_places(
    fused: Seq<FusedKeyV>,
    weight: u64,
    ranked: Seq<KeyScoreV>,
    n: int,
) -> Seq<FusedKeyV>
    decreases n,
{
    if n <= 0 {
        fused
    } else {
        with_share(
            with_places(fused, weight, ranked, n - 1),
            ranked[n - 1].key,
            (Share { weight, place: n as usize }),
        )
    }
}

/// The fused keys with the shares of a list: best score first, then by key.
pub open spec fn with_ranked_list(
    fused: Seq<FusedKeyV>,
    weight: u64,
    list: Seq<KeyScoreV>,
) -> Seq<FusedKeyV> {
    with_places(fused, weight, sorted_by(list, ranks_before()), list.len() as int)
}

/// The fused keys of a full-text list and of vector lists.
pub open spec fn fused_keys(
    full_text: Seq<KeyScoreV>,
    full_text_weight: u64,
    lists: Seq<VectorListV>,
) -> Seq<FusedKeyV>
    decreases lists.len(),
{
    if lists.len() == 0 {
        with_ranked_list(seq![], full_text_weight, full_text)
    } else {
        with_ranked_list(
            fused_keys(full_text, full_text_weight, lists.drop_last()),
            lists.last().weight,
            lists.last().scores,
        )
    }
}

fn add_share(fused: &mut KeyedList<FusedKey>, key: &str, share: Share)
    ensures
        final(fused)@ == with_share(old(fused)@, key@, share),
{
    let mut shares: Vec<Share> = match fused.get(key) {
        Some(f) => {
            let copy = f.shares.clone();
            assert(copy@ =~= f.shares@);
            copy
        },
        None => Vec::new(),
    };
    shares.push(share);
    fused.put(FusedKey { key: key.to_owned(), shares });
}

/// Adds one list's shares: each of its documents gets its place in the list,
/// best score first, with the key as tie-breaker.
fn add_list(fused: &mut KeyedList<FusedKey>, weight: u64, list: &KeyedList<KeyScore>)
    ensures
        final(fused)@ == with_ranked_list(old(fused)@, weight, list@),
{
    let ranked = rank_scores(list);
    let ghost all = views_of(ranked@);
    let ghost start = fused@;
    proof {
        law_sorting_keeps_items(list@, ranks_before());
    }
    let mut i: usize = 0;
    while i < ranked.len()
        invariant
            all == views_of(ranked@),
            i <= ranked@.len(),
            fused@ == with_places(start, weight, all, i as int),
        decreases ranked@.len() - i,
    {
        assert(all[i as int] == ranked@[i as int]@);
        add_share(fused, ranked[i].key.as_str(), Share { weight, place: i + 1 });
        i += 1;
    }
}

/// What weighted Reciprocal Rank Fusion sums up: for each document of a
/// full-text score list and of the vector queries' score lists, its places in
/// the lists in which it appears, with their weights.
pub fn rrf_shares(
    full_text: &KeyedList<KeyScore>,
    full_text_weight: u64,
    vector_lists: &Vec<VectorList>,
) -> (r: KeyedList<FusedKey>)
    ensures
        r@ == fused_keys(full_text@, full_text_weight, list_views(vector_lists@)),
{
    let ghost all = list_views(vector_lists@);
    let mut fused: KeyedList<FusedKey> = KeyedList::new();
    assert(all.take(0) =~= seq![]);
    add_list(&mut fused, full_text_weight, full_text);
    let mut i: usize = 0;
    while i < vector_lists.len()
        invariant
            all == list_views(vector_lists@),
            i <= vector_lists@.len(),
            fused@ == fused_keys(full_text@, full_text_weight, all.take(i as int)),
        decreases vector_lists@.len() - i,
    {
        assert(all[i as int] == vector_lists@[i as int]@);
        assert(all.take(i + 1).drop_last() =~= all.take(i as int));
        assert(all.take(i + 1).last() == all[i as int]);
        add_list(&mut fused, vector_lists[i].weight, &vector_lists[i].scores);
        i += 1;
    }
    assert(all.take(i as int) =~= all);
    fused
}

// ---------------------------------------------------------------------------
// Laws
// ---------------------------------------------------------------------------

/// The first `n` documents of a ranked list give a key one share where it is
/// among them, and leave the other keys' shares as they were.
proof fn lemma_places(
    fused: Seq<FusedKeyV>,
    weight: u64,
    ranked: Seq<KeyScoreV>,
    n: int,
    key: Seq<char>,
)
    requires
        0 <= n <= ranked.len(),
        forall|i: int, j: int|
            0 <= i < j < ranked.len() ==> (#[trigger] ranked[i]).key != (#[trigger] ranked[j]).key,
    ensures
        forall|i: int|
            0 <= i < n && (#[trigger] ranked[i]).key == key ==> shares_of(
                with_places(fused, weight, ranked, n),
                key,
            ) == shares_of(fused, key).push(Share { weight, place: (i + 1) as usize }),
        (forall|i: int| 0 <= i < n ==> (#[trigger] ranked[i]).key != key) ==> shares_of(
            with_places(fused, weight, ranked, n),
            key,
        ) == shares_of(fused, key),
    decreases n,
{
    if n > 0 {
        lemma_places(fused, weight, ranked, n - 1, key);
        let before = with_places(fused, weight, ranked, n - 1);
        let item = FusedKeyV {
            key: ranked[n - 1].key,
            shares: shares_of(before, ranked[n - 1].key).push(
                Share { weight, place: n as usize },
            ),
        };
        law_put_item_is_found::<FusedKey>(before, item, key);
        assert(forall|i: int|
            0 <= i < n - 1 ==> (#[trigger] ranked[i]).key != ranked[n - 1].key);
    }
}

/// A list gives each of its documents one share, the place that the document has
/// when the list is ranked, and leaves the shares of all other documents as they
/// were.
pub proof fn law_list_gives_one_share(
    fused: Seq<FusedKeyV>,
    weight: u64,
    list: Seq<KeyScoreV>,
    key: Seq<char>,
)
    requires
        keyed_sorted::<KeyScore>(list),
    ensures
        ({
            let ranked = sorted_by(list, ranks_before());
            let after = shares_of(with_ranked_list(fused, weight, list), key);
            match keyed_find::<KeyScore>(list, key) {
                Some(_) => exists|i: int|
                    #![trigger ranked[i]]
                    0 <= i < ranked.len() && ranked[i].key == key && after == shares_of(
                        fused,
                        key,
                    ).push(Share { weight, place: (i + 1) as usize }),
                None => after == shares_of(fused, key),
            }
        }),
{
    let ranked = sorted_by(list, ranks_before());
    law_sorting_keeps_items(list, ranks_before());
    lemma_distinct_after_sorting(list);
    lemma_places(fused, weight, ranked, ranked.len() as int, key);
    law_found_item_has_key::<KeyScore>(list, key);
    broadcast use vstd::seq_lib::group_to_multiset_ensures;

    match keyed_find::<KeyScore>(list, key) {
        Some(x) => {
            assert(list.to_multiset().count(x) > 0);
            assert(ranked.contains(x));
            let i = choose|i: int| 0 <= i < ranked.len() && ranked[i] == x;
            assert(ranked[i].key == key);
        },
        None => {
            assert forall|i: int| 0 <= i < ranked.len() implies (#[trigger] ranked[i]).key
                != key by {
                assert(ranked.contains(ranked[i]));
                assert(ranked.to_multiset().count(ranked[i]) > 0);
                assert(list.contains(ranked[i]));
                let j = choose|j: int| 0 <= j < list.len() && list[j] == ranked[i];
                assert(KeyScore::key_of_item(list[j]) != key);
            }
        },
    }
}

/// The keys of a ranked list differ.
proof fn lemma_distinct_after_sorting(list: Seq<KeyScoreV>)
    requires
        keyed_sorted::<KeyScore>(list),
    ensures
        ({
            let ranked = sorted_by(list, ranks_before());
            forall|i: int, j: int|
                0 <= i < j < ranked.len() ==> (#[trigger] ranked[i]).key != (
                #[trigger] ranked[j]).key
        }),
{
    let ranked = sorted_by(list, ranks_before());
    law_sorting_keeps_items(list, ranks_before());
    broadcast use vstd::seq_lib::group_to_multiset_ensures;

    assert forall|i: int, j: int| 0 <= i < j < list.len() implies list[i] != list[j] by {
        assert(text_less(KeyScore::key_of_item(list[i]), KeyScore::key_of_item(list[j])));
        lemma_text_less_irreflexive(list[i].key);
    }
    assert(list.no_duplicates());
    list.lemma_multiset_has_no_duplicates();
    ranked.lemma_multiset_has_no_duplicates_conv();
    assert forall|i: int, j: int| 0 <= i < j < ranked.len() implies (#[trigger] ranked[i]).key != (
    #[trigger] ranked[j]).key by {
        assert(ranked[i] != ranked[j]);
        assert(ranked.to_multiset().count(ranked[i]) > 0);
        assert(ranked.to_multiset().count(ranked[j]) > 0);
        assert(list.contains(ranked[i]) && list.contains(ranked[j]));
        let a = choose|a: int| 0 <= a < list.len() && list[a] == ranked[i];
        let b = choose|b: int| 0 <= b < list.len() && list[b] == ranked[j];
        assert(a != b);
        if a < b {
            assert(text_less(KeyScore::key_of_item(list[a]), KeyScore::key_of_item(list[b])));
        } else {
            assert(text_less(KeyScore::key_of_item(list[b]), KeyScore::key_of_item(list[a])));
        }
        lemma_text_less_irreflexive(ranked[i].key);
    }
}

/// Whether a key is in the full-text list or in a vector list.
pub open spec fn in_some_list(
    full_text: Seq<KeyScoreV>,
    lists: Seq<VectorListV>,
    key: Seq<char>,
) -> bool {
    keyed_find::<KeyScore>(full_text, key) is Some || exists|i: int|
        0 <= i < lists.len() && keyed_find::<KeyScore>((#[trigger] lists[i]).scores, key) is Some
}

/// Fusion is a union: a document has a share exactly when some list has it.
pub proof fn law_fusion_is_a_union(
    full_text: Seq<KeyScoreV>,
    full_text_weight: u64,
    lists: Seq<VectorListV>,
    key: Seq<char>,
)
    requires
        keyed_sorted::<KeyScore>(full_text),
        forall|i: int|
            0 <= i < lists.len() ==> keyed_sorted::<KeyScore>((#[trigger] lists[i]).scores),
    ensures
        shares_of(fused_keys(full_text, full_text_weight, lists), key).len() > 0
            <==> in_some_list(full_text, lists, key),
    decreases lists.len(),
{
    if lists.len() == 0 {
        law_list_gives_one_share(seq![], full_text_weight, full_text, key);
    } else {
        let rest = lists.drop_last();
        assert forall|i: int| 0 <= i < rest.len() implies keyed_sorted::<KeyScore>(
            (#[trigger] rest[i]).scores,
        ) by {
            assert(rest[i] == lists[i]);
        }
        law_fusion_is_a_union(full_text, full_text_weight, rest, key);
        let before = fused_keys(full_text, full_text_weight, rest);
        let last = lists.last();
        assert(last == lists[lists.len() - 1]);
        law_list_gives_one_share(before, last.weight, last.scores, key);
        if in_some_list(full_text, rest, key) && keyed_find::<KeyScore>(full_text, key) is None {
            let i = choose|i: int|
                0 <= i < rest.len() && keyed_find::<KeyScore>((#[trigger] rest[i]).scores, key)
                    is Some;
            assert(lists[i] == rest[i]);
        }
        if in_some_list(full_text, lists, key) && keyed_find::<KeyScore>(full_text, key) is None {
            let i = choose|i: int|
                0 <= i < lists.len() && keyed_find::<KeyScore>((#[trigger] lists[i]).scores, key)
                    is Some;
            if i < rest.len() {
                assert(rest[i] == lists[i]);
            }
        }
    }
}

} // verus!
