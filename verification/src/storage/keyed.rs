//! Collections of items that are found by a key, in the order of the keys.
use crate::text::{
    lemma_text_less_irreflexive, lemma_text_less_total, lemma_text_less_transitive, same_text,
    text_before, text_less,
};
use vstd::prelude::*;

verus! {

/// What is found by a key.
pub trait Keyed: View + Sized {
    /// The key of an item.
    spec fn key_of_item(item: Self::V) -> Seq<char>;

    fn key(&self) -> (r: &str)
        ensures
            r@ == Self::key_of_item(self@),
    ;
}

/// What can be copied.
pub trait CopyItem: Keyed {
    /// An equal item.
    fn copy_item(&self) -> (r: Self)
        ensures
            r@ == self@,
    ;
}

/// Items in the order of their keys, at most one for a key.
pub struct KeyedList<T: Keyed> {
    items: Vec<T>,
}

pub open spec fn item_views<T: Keyed>(v: Seq<T>) -> Seq<T::V> {
    v.map_values(|x: T| x@)
}

impl<T: Keyed> View for KeyedList<T> {
    type V = Seq<T::V>;

    closed spec fn view(&self) -> Seq<T::V> {
        item_views(self.items@)
    }
}

/// Whether items stand in the order of their keys, at most one for a key.
pub open spec fn keyed_sorted<T: Keyed>(s: Seq<T::V>) -> bool {
    forall|i: int, j: int|
        0 <= i < j < s.len() ==> text_less(
            #[trigger] T::key_of_item(s[i]),
            #[trigger] T::key_of_item(s[j]),
        )
}

/// The item with a key.
pub open spec fn keyed_find<T: Keyed>(s: Seq<T::V>, key: Seq<char>) -> Option<T::V>
    decreases s.len(),
{
    if s.len() == 0 {
        None
    } else if T::key_of_item(s[0]) == key {
        Some(s[0])
    } else {
        keyed_find::<T>(s.drop_first(), key)
    }
}

/// The items with one put in, in place of that with the same key.
pub open spec fn keyed_put<T: Keyed>(s: Seq<T::V>, item: T::V) -> Seq<T::V>
    decreases s.len(),
{
    if s.len() == 0 {
        seq![item]
    } else if T::key_of_item(s[0]) == T::key_of_item(item) {
        seq![item] + s.drop_first()
    } else if text_less(T::key_of_item(s[0]), T::key_of_item(item)) {
        seq![s[0]] + keyed_put::<T>(s.drop_first(), item)
    } else {
        seq![item] + s
    }
}

/// The items without that with a key.
pub open spec fn keyed_remove<T: Keyed>(s: Seq<T::V>, key: Seq<char>) -> Seq<T::V>
    decreases s.len(),
{
    if s.len() == 0 {
        s
    } else if T::key_of_item(s[0]) == key {
        s.drop_first()
    } else {
        seq![s[0]] + keyed_remove::<T>(s.drop_first(), key)
    }
}

/// The items with that with a key replaced.
pub open spec fn keyed_replace<T: Keyed>(s: Seq<T::V>, key: Seq<char>, item: T::V) -> Seq<T::V>
    decreases s.len(),
{
    if s.len() == 0 {
        s
    } else if T::key_of_item(s[0]) == key {
        seq![item] + s.drop_first()
    } else {
        seq![s[0]] + keyed_replace::<T>(s.drop_first(), key, item)
    }
}

pub broadcast proof fn lemma_item_views_push<T: Keyed>(v: Seq<T>, x: T)
    ensures
        #[trigger] item_views(v.push(x)) == item_views(v).push(x@),
{
    assert(item_views(v.push(x)) =~= item_views(v).push(x@));
}

impl<T: Keyed> KeyedList<T> {
    pub fn new() -> (r: KeyedList<T>)
        ensures
            r@ == Seq::<T::V>::empty(),
    {
        let r = KeyedList { items: Vec::new() };
        assert(item_views(r.items@) =~= Seq::<T::V>::empty());
        r
    }

    pub fn len(&self) -> (r: usize)
        ensures
            r == self@.len(),
    {
        self.items.len()
    }

    /// The item at a place.
    pub fn at(&self, i: usize) -> (r: &T)
        requires
            i < self@.len(),
        ensures
            r@ == self@[i as int],
    {
        assert(self@[i as int] == self.items@[i as int]@);
        &self.items[i]
    }

    pub fn get(&self, key: &str) -> (r: Option<&T>)
        ensures
            match r {
                Some(x) => keyed_find::<T>(self@, key@) == Some(x@),
                None => keyed_find::<T>(self@, key@) is None,
            },
    {
        let mut i: usize = 0;
        assert(self@.skip(0) =~= self@);
        while i < self.items.len()
            invariant
                i <= self.items@.len(),
                keyed_find::<T>(self@, key@) == keyed_find::<T>(self@.skip(i as int), key@),
            decreases self.items@.len() - i,
        {
            let ghost rest = self@.skip(i as int);
            assert(rest[0] == self.items@[i as int]@);
            assert(rest.drop_first() =~= self@.skip(i + 1));
            if same_text(self.items[i].key(), key) {
                return Some(&self.items[i]);
            }
            i += 1;
        }
        None
    }

    pub fn contains(&self, key: &str) -> (r: bool)
        ensures
            r == keyed_find::<T>(self@, key@) is Some,
    {
        self.get(key).is_some()
    }

    pub fn put(&mut self, item: T)
        ensures
            final(self)@ == keyed_put::<T>(old(self)@, item@),
    {
        let ghost m = self@;
        let ghost v = item@;
        let ghost k = T::key_of_item(v);
        let mut i: usize = 0;
        assert(m.skip(0) =~= m);
        assert(m.take(0) + keyed_put::<T>(m, v) =~= keyed_put::<T>(m, v));
        while i < self.items.len() && text_before(self.items[i].key(), item.key())
            invariant
                self@ == m,
                item@ == v,
                k == T::key_of_item(v),
                i <= self.items@.len(),
                keyed_put::<T>(m, v) == m.take(i as int) + keyed_put::<T>(m.skip(i as int), v),
            decreases self.items@.len() - i,
        {
            proof {
                let rest = m.skip(i as int);
                assert(rest[0] == self.items@[i as int]@);
                assert(rest.drop_first() =~= m.skip(i + 1));
                lemma_text_less_irreflexive(k);
                assert(m.take(i as int) + (seq![rest[0]] + keyed_put::<T>(m.skip(i + 1), v))
                    =~= m.take(i + 1) + keyed_put::<T>(m.skip(i + 1), v));
            }
            i += 1;
        }
        let ghost rest = m.skip(i as int);
        if i < self.items.len() {
            assert(rest[0] == self.items@[i as int]@);
            if same_text(self.items[i].key(), item.key()) {
                self.items.set(i, item);
                assert(self@ =~= m.take(i as int) + (seq![v] + rest.drop_first()));
                return;
            }
        }
        self.items.insert(i, item);
        assert(self@ =~= m.take(i as int) + (seq![v] + rest));
        proof {
            if rest.len() == 0 {
                assert(seq![v] + rest =~= seq![v]);
            }
        }
    }

    /// Removes the item with a key, returning whether there was one.
    pub fn remove(&mut self, key: &str) -> (r: bool)
        ensures
            final(self)@ == keyed_remove::<T>(old(self)@, key@),
            r == keyed_find::<T>(old(self)@, key@) is Some,
    {
        let ghost m = self@;
        let mut i: usize = 0;
        assert(m.skip(0) =~= m);
        assert(m.take(0) + keyed_remove::<T>(m, key@) =~= keyed_remove::<T>(m, key@));
        while i < self.items.len()
            invariant
                m == old(self)@,
                self@ == m,
                i <= self.items@.len(),
                keyed_remove::<T>(m, key@) == m.take(i as int) + keyed_remove::<T>(
                    m.skip(i as int),
                    key@,
                ),
                keyed_find::<T>(m, key@) == keyed_find::<T>(m.skip(i as int), key@),
            decreases self.items@.len() - i,
        {
            let ghost rest = m.skip(i as int);
            assert(rest[0] == self.items@[i as int]@);
            assert(rest.drop_first() =~= m.skip(i + 1));
            if same_text(self.items[i].key(), key) {
                self.items.remove(i);
                assert(self@ =~= m.take(i as int) + rest.drop_first());
                return true;
            }
            assert(m.take(i as int) + (seq![rest[0]] + keyed_remove::<T>(m.skip(i + 1), key@))
                =~= m.take(i + 1) + keyed_remove::<T>(m.skip(i + 1), key@));
            i += 1;
        }
        assert(m.skip(i as int) =~= Seq::<T::V>::empty());
        assert(m.take(i as int) + m.skip(i as int) =~= m);
        false
    }

    /// The item with a key, to be changed in place.
    pub fn get_mut(&mut self, key: &str) -> (r: Option<&mut T>)
        ensures
            match r {
                Some(x) => keyed_find::<T>(old(self)@, key@) == Some(x@) && final(self)@
                    == keyed_replace::<T>(old(self)@, key@, final(x)@),
                None => keyed_find::<T>(old(self)@, key@) is None && final(self)@ == old(self)@,
            },
    {
        let ghost m = self@;
        let mut i: usize = 0;
        assert(m.skip(0) =~= m);
        while i < self.items.len() && !same_text(self.items[i].key(), key)
            invariant
                self@ == m,
                i <= self.items@.len(),
                keyed_find::<T>(m, key@) == keyed_find::<T>(m.skip(i as int), key@),
                forall|v: T::V| #[trigger]
                    keyed_replace::<T>(m, key@, v) == m.take(i as int) + keyed_replace::<T>(
                        m.skip(i as int),
                        key@,
                        v,
                    ),
            decreases self.items@.len() - i,
        {
            proof {
                let rest = m.skip(i as int);
                assert(rest[0] == self.items@[i as int]@);
                assert(rest.drop_first() =~= m.skip(i + 1));
                assert forall|v: T::V| #[trigger]
                    keyed_replace::<T>(m, key@, v) == m.take(i + 1) + keyed_replace::<T>(
                        m.skip(i + 1),
                        key@,
                        v,
                    ) by {
                    assert(m.take(i as int) + (seq![rest[0]] + keyed_replace::<T>(
                        m.skip(i + 1),
                        key@,
                        v,
                    )) =~= m.take(i + 1) + keyed_replace::<T>(m.skip(i + 1), key@, v));
                }
            }
            i += 1;
        }
        if i >= self.items.len() {
            return None;
        }
        let ghost items = self.items@;
        let ghost rest = m.skip(i as int);
        assert(rest[0] == items[i as int]@);
        proof {
            assert forall|x: T| #[trigger]
                item_views(items.update(i as int, x)) == keyed_replace::<T>(m, key@, x@) by {
                assert(item_views(items.update(i as int, x)) =~= m.take(i as int) + (seq![x@]
                    + rest.drop_first()));
            }
        }
        Some(&mut self.items[i])
    }

    pub fn clear(&mut self)
        ensures
            final(self)@ == Seq::<T::V>::empty(),
    {
        self.items = Vec::new();
        assert(item_views(self.items@) =~= Seq::<T::V>::empty());
    }
}

impl<T: CopyItem> KeyedList<T> {
    pub fn duplicate(&self) -> (r: KeyedList<T>)
        ensures
            r@ == self@,
    {
        KeyedList { items: self.to_vec() }
    }

    /// Equal items, in order.
    pub fn to_vec(&self) -> (r: Vec<T>)
        ensures
            item_views(r@) == self@,
    {
        broadcast use lemma_item_views_push;

        let mut out: Vec<T> = Vec::new();
        let mut i: usize = 0;
        assert(item_views(out@) =~= self@.take(0));
        while i < self.items.len()
            invariant
                i <= self.items@.len(),
                item_views(out@) == self@.take(i as int),
            decreases self.items@.len() - i,
        {
            let ghost before = item_views(out@);
            let x = self.items[i].copy_item();
            out.push(x);
            assert(item_views(out@) == before.push(x@));
            assert(self@[i as int] == x@);
            i += 1;
            assert(item_views(out@) =~= self@.take(i as int));
        }
        assert(self@.take(self@.len() as int) =~= self@);
        out
    }
}

// ---------------------------------------------------------------------------
// Laws
// ---------------------------------------------------------------------------

/// An item that was put in is found under its key, and the items with other
/// keys are found as before.
pub proof fn law_put_item_is_found<T: Keyed>(s: Seq<T::V>, item: T::V, other: Seq<char>)
    ensures
        keyed_find::<T>(keyed_put::<T>(s, item), T::key_of_item(item)) == Some(item),
        other != T::key_of_item(item) ==> keyed_find::<T>(keyed_put::<T>(s, item), other)
            == keyed_find::<T>(s, other),
    decreases s.len(),
{
    let r = keyed_put::<T>(s, item);
    if s.len() == 0 {
        assert(r.drop_first() =~= s);
    } else if T::key_of_item(s[0]) == T::key_of_item(item) {
        assert(r.drop_first() =~= s.drop_first());
    } else if text_less(T::key_of_item(s[0]), T::key_of_item(item)) {
        law_put_item_is_found::<T>(s.drop_first(), item, other);
        assert(r.drop_first() =~= keyed_put::<T>(s.drop_first(), item));
    } else {
        assert(r.drop_first() =~= s);
    }
}

/// An item that was changed in place without its key is found under it, and the
/// items with other keys are found as before.
pub proof fn law_replaced_item_is_found<T: Keyed>(
    s: Seq<T::V>,
    key: Seq<char>,
    item: T::V,
    other: Seq<char>,
)
    requires
        keyed_find::<T>(s, key) is Some,
        T::key_of_item(item) == key,
    ensures
        keyed_find::<T>(keyed_replace::<T>(s, key, item), key) == Some(item),
        other != key ==> keyed_find::<T>(keyed_replace::<T>(s, key, item), other)
            == keyed_find::<T>(s, other),
    decreases s.len(),
{
    let r = keyed_replace::<T>(s, key, item);
    if T::key_of_item(s[0]) == key {
        assert(r.drop_first() =~= s.drop_first());
    } else {
        law_replaced_item_is_found::<T>(s.drop_first(), key, item, other);
        assert(r.drop_first() =~= keyed_replace::<T>(s.drop_first(), key, item));
    }
}

pub proof fn lemma_replace_keys<T: Keyed>(s: Seq<T::V>, key: Seq<char>, item: T::V)
    requires
        T::key_of_item(item) == key,
    ensures
        keyed_replace::<T>(s, key, item).len() == s.len(),
        forall|i: int|
            0 <= i < s.len() ==> T::key_of_item(
                #[trigger] keyed_replace::<T>(s, key, item)[i],
            ) == T::key_of_item(s[i]),
        forall|i: int|
            0 <= i < s.len() ==> #[trigger] keyed_replace::<T>(s, key, item)[i] == s[i]
                || keyed_replace::<T>(s, key, item)[i] == item,
    decreases s.len(),
{
    if s.len() > 0 && T::key_of_item(s[0]) != key {
        let rest = s.drop_first();
        lemma_replace_keys::<T>(rest, key, item);
        let r = keyed_replace::<T>(s, key, item);
        let tail = keyed_replace::<T>(rest, key, item);
        assert forall|i: int| 0 <= i < s.len() implies T::key_of_item(#[trigger] r[i])
            == T::key_of_item(s[i]) && (r[i] == s[i] || r[i] == item) by {
            if i > 0 {
                assert(r[i] == tail[i - 1]);
                assert(rest[i - 1] == s[i]);
            }
        }
    }
}

/// Changing an item in place without its key keeps the items in order.
pub proof fn law_replace_keeps_order<T: Keyed>(s: Seq<T::V>, key: Seq<char>, item: T::V)
    requires
        keyed_sorted::<T>(s),
        T::key_of_item(item) == key,
    ensures
        keyed_sorted::<T>(keyed_replace::<T>(s, key, item)),
{
    lemma_replace_keys::<T>(s, key, item);
    let r = keyed_replace::<T>(s, key, item);
    assert forall|i: int, j: int| 0 <= i < j < r.len() implies text_less(
        #[trigger] T::key_of_item(r[i]),
        #[trigger] T::key_of_item(r[j]),
    ) by {
        assert(T::key_of_item(r[i]) == T::key_of_item(s[i]));
        assert(T::key_of_item(r[j]) == T::key_of_item(s[j]));
    }
}

pub proof fn lemma_find_absent<T: Keyed>(s: Seq<T::V>, key: Seq<char>)
    requires
        forall|i: int| 0 <= i < s.len() ==> #[trigger] T::key_of_item(s[i]) != key,
    ensures
        keyed_find::<T>(s, key) is None,
    decreases s.len(),
{
    if s.len() > 0 {
        let rest = s.drop_first();
        assert forall|i: int| 0 <= i < rest.len() implies #[trigger] T::key_of_item(rest[i])
            != key by {
            assert(rest[i] == s[i + 1]);
        }
        assert(T::key_of_item(s[0]) != key);
        lemma_find_absent::<T>(rest, key);
    }
}

proof fn lemma_sorted_rest<T: Keyed>(s: Seq<T::V>)
    requires
        keyed_sorted::<T>(s),
        s.len() > 0,
    ensures
        keyed_sorted::<T>(s.drop_first()),
{
    let rest = s.drop_first();
    assert forall|i: int, j: int| 0 <= i < j < rest.len() implies text_less(
        #[trigger] T::key_of_item(rest[i]),
        #[trigger] T::key_of_item(rest[j]),
    ) by {
        assert(rest[i] == s[i + 1] && rest[j] == s[j + 1]);
    }
}

/// An item that was removed is not found, and the items with other keys are
/// found as before.
pub proof fn law_removed_item_is_gone<T: Keyed>(s: Seq<T::V>, key: Seq<char>, other: Seq<char>)
    requires
        keyed_sorted::<T>(s),
    ensures
        keyed_find::<T>(keyed_remove::<T>(s, key), key) is None,
        other != key ==> keyed_find::<T>(keyed_remove::<T>(s, key), other) == keyed_find::<T>(
            s,
            other,
        ),
    decreases s.len(),
{
    if s.len() > 0 {
        let rest = s.drop_first();
        lemma_sorted_rest::<T>(s);
        if T::key_of_item(s[0]) == key {
            assert forall|i: int| 0 <= i < rest.len() implies #[trigger] T::key_of_item(rest[i])
                != key by {
                assert(rest[i] == s[i + 1]);
                assert(text_less(T::key_of_item(s[0]), T::key_of_item(s[i + 1])));
                lemma_text_less_irreflexive(key);
            }
            lemma_find_absent::<T>(rest, key);
        } else {
            law_removed_item_is_gone::<T>(rest, key, other);
            let r = keyed_remove::<T>(s, key);
            assert(r.drop_first() =~= keyed_remove::<T>(rest, key));
        }
    }
}

pub proof fn lemma_put_keys<T: Keyed>(s: Seq<T::V>, item: T::V, i: int)
    requires
        0 <= i < keyed_put::<T>(s, item).len(),
    ensures
        keyed_put::<T>(s, item)[i] == item || exists|j: int|
            0 <= j < s.len() && s[j] == keyed_put::<T>(s, item)[i],
    decreases s.len(),
{
    let r = keyed_put::<T>(s, item);
    if s.len() > 0 {
        if T::key_of_item(s[0]) == T::key_of_item(item) {
            if i > 0 {
                assert(s[i] == r[i]);
            }
        } else if text_less(T::key_of_item(s[0]), T::key_of_item(item)) {
            if i > 0 {
                lemma_put_keys::<T>(s.drop_first(), item, i - 1);
                if r[i] != item {
                    let j = choose|j: int|
                        0 <= j < s.drop_first().len() && s.drop_first()[j] == keyed_put::<T>(
                            s.drop_first(),
                            item,
                        )[i - 1];
                    assert(s[j + 1] == r[i]);
                }
            } else {
                assert(s[0] == r[0]);
            }
        } else if i > 0 {
            assert(s[i - 1] == r[i]);
        }
    }
}

/// Putting an item in keeps the items in order.
pub proof fn law_put_keeps_order<T: Keyed>(s: Seq<T::V>, item: T::V)
    requires
        keyed_sorted::<T>(s),
    ensures
        keyed_sorted::<T>(keyed_put::<T>(s, item)),
    decreases s.len(),
{
    if s.len() > 0 {
        let rest = s.drop_first();
        lemma_sorted_rest::<T>(s);
        let r = keyed_put::<T>(s, item);
        let k = T::key_of_item(item);
        if T::key_of_item(s[0]) == k {
            assert forall|i: int, j: int| 0 <= i < j < r.len() implies text_less(
                #[trigger] T::key_of_item(r[i]),
                #[trigger] T::key_of_item(r[j]),
            ) by {
                assert(T::key_of_item(r[i]) == T::key_of_item(s[i]));
                assert(r[j] == s[j]);
            }
        } else if text_less(T::key_of_item(s[0]), k) {
            law_put_keeps_order::<T>(rest, item);
            let tail = keyed_put::<T>(rest, item);
            assert forall|i: int, j: int| 0 <= i < j < r.len() implies text_less(
                #[trigger] T::key_of_item(r[i]),
                #[trigger] T::key_of_item(r[j]),
            ) by {
                assert(r[j] == tail[j - 1]);
                if i == 0 {
                    lemma_put_keys::<T>(rest, item, j - 1);
                    if tail[j - 1] != item {
                        let n = choose|n: int| 0 <= n < rest.len() && rest[n] == tail[j - 1];
                        assert(s[n + 1] == r[j]);
                        assert(text_less(T::key_of_item(s[0]), T::key_of_item(s[n + 1])));
                    }
                } else {
                    assert(r[i] == tail[i - 1]);
                }
            }
        } else {
            lemma_text_less_total(T::key_of_item(s[0]), k);
            assert forall|i: int, j: int| 0 <= i < j < r.len() implies text_less(
                #[trigger] T::key_of_item(r[i]),
                #[trigger] T::key_of_item(r[j]),
            ) by {
                assert(r[j] == s[j - 1]);
                if i == 0 {
                    if j > 1 {
                        assert(text_less(T::key_of_item(s[0]), T::key_of_item(s[j - 1])));
                        lemma_text_less_transitive(
                            k,
                            T::key_of_item(s[0]),
                            T::key_of_item(s[j - 1]),
                        );
                    }
                } else {
                    assert(r[i] == s[i - 1]);
                }
            }
        }
    }
}

proof fn lemma_remove_keys<T: Keyed>(s: Seq<T::V>, key: Seq<char>, i: int)
    requires
        0 <= i < keyed_remove::<T>(s, key).len(),
    ensures
        exists|j: int| 0 <= j < s.len() && s[j] == keyed_remove::<T>(s, key)[i],
    decreases s.len(),
{
    let r = keyed_remove::<T>(s, key);
    if T::key_of_item(s[0]) == key {
        assert(s[i + 1] == r[i]);
    } else if i > 0 {
        lemma_remove_keys::<T>(s.drop_first(), key, i - 1);
        let j = choose|j: int|
            0 <= j < s.drop_first().len() && s.drop_first()[j] == keyed_remove::<T>(
                s.drop_first(),
                key,
            )[i - 1];
        assert(s[j + 1] == r[i]);
    } else {
        assert(s[0] == r[0]);
    }
}

/// Removing an item keeps the items in order.
pub proof fn law_remove_keeps_order<T: Keyed>(s: Seq<T::V>, key: Seq<char>)
    requires
        keyed_sorted::<T>(s),
    ensures
        keyed_sorted::<T>(keyed_remove::<T>(s, key)),
    decreases s.len(),
{
    if s.len() > 0 {
        let rest = s.drop_first();
        lemma_sorted_rest::<T>(s);
        if T::key_of_item(s[0]) != key {
            law_remove_keeps_order::<T>(rest, key);
            let r = keyed_remove::<T>(s, key);
            let tail = keyed_remove::<T>(rest, key);
            assert forall|i: int, j: int| 0 <= i < j < r.len() implies text_less(
                #[trigger] T::key_of_item(r[i]),
                #[trigger] T::key_of_item(r[j]),
            ) by {
                assert(r[j] == tail[j - 1]);
                if i == 0 {
                    lemma_remove_keys::<T>(rest, key, j - 1);
                    let n = choose|n: int| 0 <= n < rest.len() && rest[n] == tail[j - 1];
                    assert(s[n + 1] == r[j]);
                    assert(text_less(T::key_of_item(s[0]), T::key_of_item(s[n + 1])));
                } else {
                    assert(r[i] == tail[i - 1]);
                }
            }
        }
    }
}

/// What is found under a key is one of the items, and has the key.
pub proof fn law_found_item_has_key<T: Keyed>(s: Seq<T::V>, key: Seq<char>)
    ensures
        match keyed_find::<T>(s, key) {
            Some(x) => T::key_of_item(x) == key && s.contains(x),
            None => forall|i: int| 0 <= i < s.len() ==> #[trigger] T::key_of_item(s[i]) != key,
        },
    decreases s.len(),
{
    if s.len() > 0 {
        let rest = s.drop_first();
        law_found_item_has_key::<T>(rest, key);
        if T::key_of_item(s[0]) == key {
            assert(s.contains(s[0]));
        } else {
            match keyed_find::<T>(rest, key) {
                Some(x) => {
                    let i = choose|i: int| 0 <= i < rest.len() && rest[i] == x;
                    assert(s[i + 1] == x);
                },
                None => {
                    assert forall|i: int| 0 <= i < s.len() implies #[trigger] T::key_of_item(s[i])
                        != key by {
                        if i > 0 {
                            assert(T::key_of_item(rest[i - 1]) != key);
                        }
                    }
                },
            }
        }
    }
}

/// Removing an item leaves no others than there were.
pub proof fn lemma_remove_items<T: Keyed>(s: Seq<T::V>, key: Seq<char>, i: int)
    requires
        0 <= i < keyed_remove::<T>(s, key).len(),
    ensures
        s.contains(keyed_remove::<T>(s, key)[i]),
    decreases s.len(),
{
    let r = keyed_remove::<T>(s, key);
    if s.len() > 0 {
        if T::key_of_item(s[0]) == key {
            assert(s[i + 1] == r[i]);
        } else if i == 0 {
            assert(s[0] == r[0]);
        } else {
            lemma_remove_items::<T>(s.drop_first(), key, i - 1);
            let j = choose|j: int|
                0 <= j < s.drop_first().len() && s.drop_first()[j] == keyed_remove::<T>(
                    s.drop_first(),
                    key,
                )[i - 1];
            assert(s[j + 1] == r[i]);
        }
    }
}

/// Taking out an item that was put in where there was none under its key leaves
/// what was there before.
pub proof fn law_remove_undoes_put<T: Keyed>(s: Seq<T::V>, item: T::V)
    requires
        keyed_sorted::<T>(s),
        keyed_find::<T>(s, T::key_of_item(item)) is None,
    ensures
        keyed_remove::<T>(keyed_put::<T>(s, item), T::key_of_item(item)) == s,
    decreases s.len(),
{
    let key = T::key_of_item(item);
    let r = keyed_put::<T>(s, item);
    if s.len() == 0 {
        assert(r.drop_first() =~= s);
    } else if text_less(T::key_of_item(s[0]), key) {
        lemma_sorted_rest::<T>(s);
        law_remove_undoes_put::<T>(s.drop_first(), item);
        let inner = keyed_put::<T>(s.drop_first(), item);
        assert(r == seq![s[0]] + inner);
        assert(r[0] == s[0]);
        assert(r.drop_first() =~= inner);
        assert(seq![s[0]] + s.drop_first() =~= s);
    } else {
        assert(r == seq![item] + s);
        assert(r.drop_first() =~= s);
    }
}

/// Removing what is not there changes nothing.
pub proof fn law_remove_of_absent<T: Keyed>(s: Seq<T::V>, key: Seq<char>)
    requires
        keyed_find::<T>(s, key) is None,
    ensures
        keyed_remove::<T>(s, key) == s,
    decreases s.len(),
{
    if s.len() > 0 {
        law_remove_of_absent::<T>(s.drop_first(), key);
        assert(seq![s[0]] + s.drop_first() =~= s);
    }
}

/// Removing an item that was put in leaves what removing its key left before.
pub proof fn law_remove_after_put<T: Keyed>(s: Seq<T::V>, item: T::V)
    requires
        keyed_sorted::<T>(s),
    ensures
        keyed_remove::<T>(keyed_put::<T>(s, item), T::key_of_item(item)) == keyed_remove::<T>(
            s,
            T::key_of_item(item),
        ),
    decreases s.len(),
{
    let key = T::key_of_item(item);
    let r = keyed_put::<T>(s, item);
    if s.len() == 0 {
        assert(r.drop_first() =~= s);
    } else if T::key_of_item(s[0]) == key {
        assert(r.drop_first() =~= s.drop_first());
    } else if text_less(T::key_of_item(s[0]), key) {
        lemma_sorted_rest::<T>(s);
        law_remove_after_put::<T>(s.drop_first(), item);
        let inner = keyed_put::<T>(s.drop_first(), item);
        assert(r == seq![s[0]] + inner);
        assert(r[0] == s[0]);
        assert(r.drop_first() =~= inner);
    } else {
        assert(r == seq![item] + s);
        assert(r.drop_first() =~= s);
        assert forall|i: int| 0 <= i < s.len() implies #[trigger] T::key_of_item(s[i])
            != key by {
            lemma_text_less_total(T::key_of_item(s[0]), key);
            if i > 0 {
                assert(text_less(T::key_of_item(s[0]), T::key_of_item(s[i])));
                if T::key_of_item(s[i]) == key {
                    lemma_text_less_transitive(key, T::key_of_item(s[0]), key);
                    lemma_text_less_irreflexive(key);
                }
            }
        }
        lemma_find_absent::<T>(s, key);
        law_remove_of_absent::<T>(s, key);
    }
}

/// Replacing an item that was put in is putting the other in.
pub proof fn law_replace_after_put<T: Keyed>(s: Seq<T::V>, a: T::V, b: T::V)
    requires
        T::key_of_item(a) == T::key_of_item(b),
    ensures
        keyed_replace::<T>(keyed_put::<T>(s, a), T::key_of_item(a), b) == keyed_put::<T>(s, b),
    decreases s.len(),
{
    let key = T::key_of_item(a);
    let r = keyed_put::<T>(s, a);
    if s.len() == 0 {
        assert(r.drop_first() =~= s);
        assert(seq![b] + s =~= seq![b]);
    } else if T::key_of_item(s[0]) == key {
        assert(r.drop_first() =~= s.drop_first());
    } else if text_less(T::key_of_item(s[0]), key) {
        law_replace_after_put::<T>(s.drop_first(), a, b);
        let inner = keyed_put::<T>(s.drop_first(), a);
        assert(r == seq![s[0]] + inner);
        assert(r[0] == s[0]);
        assert(r.drop_first() =~= inner);
    } else {
        assert(r == seq![a] + s);
        assert(r.drop_first() =~= s);
    }
}

} // verus!
