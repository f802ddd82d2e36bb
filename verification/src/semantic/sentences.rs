//! What holds of the sentences of a text as a whole.
use crate::semantic::answers::{
    MAX_SENTENCE_LENGTH, MIN_SENTENCE_LENGTH, all_pieces, answer_sentences, cut_place,
    ends_fragment, lemma_cut_fits, long_pieces, merged_from, raw_fragments,
};
use crate::service::laws::law_trim_is_idempotent;
use crate::text::{is_space, last_word_end, next_word, trim, trim_start, trimmed_items};
use vstd::prelude::*;

verus! {

/// The characters of a text that are no whitespace, in order.
pub open spec fn dense(s: Seq<char>) -> Seq<char>
    decreases s.len(),
{
    if s.len() == 0 {
        seq![]
    } else if is_space(s.last()) {
        dense(s.drop_last())
    } else {
        dense(s.drop_last()).push(s.last())
    }
}

/// The characters of texts that are no whitespace, in order.
pub open spec fn all_dense(parts: Seq<Seq<char>>) -> Seq<char>
    decreases parts.len(),
{
    if parts.len() == 0 {
        seq![]
    } else {
        all_dense(parts.drop_last()) + dense(parts.last())
    }
}

proof fn lemma_dense_joined(a: Seq<char>, b: Seq<char>)
    ensures
        dense(a + b) == dense(a) + dense(b),
    decreases b.len(),
{
    if b.len() == 0 {
        assert(a + b =~= a);
        assert(dense(a) + dense(b) =~= dense(a));
    } else {
        lemma_dense_joined(a, b.drop_last());
        assert((a + b).drop_last() =~= a + b.drop_last());
        assert((a + b).last() == b.last());
        assert(dense(a + b) =~= dense(a) + dense(b));
    }
}

proof fn lemma_dense_split(s: Seq<char>, at: int)
    requires
        0 <= at <= s.len(),
    ensures
        dense(s) == dense(s.take(at)) + dense(s.skip(at)),
{
    lemma_dense_joined(s.take(at), s.skip(at));
    assert(s.take(at) + s.skip(at) =~= s);
}

proof fn lemma_dense_of_space(s: Seq<char>)
    requires
        forall|k: int| 0 <= k < s.len() ==> is_space(#[trigger] s[k]),
    ensures
        dense(s) == Seq::<char>::empty(),
    decreases s.len(),
{
    if s.len() > 0 {
        assert(is_space(s[s.len() - 1]));
        assert forall|k: int| 0 <= k < s.drop_last().len() implies is_space(
            #[trigger] s.drop_last()[k],
        ) by {
            assert(is_space(s[k]));
        }
        lemma_dense_of_space(s.drop_last());
    }
}

proof fn lemma_space_before(s: Seq<char>, i: int)
    requires
        0 <= i <= s.len(),
    ensures
        i <= next_word(s, i) <= s.len(),
        forall|k: int| i <= k < next_word(s, i) ==> is_space(#[trigger] s[k]),
        next_word(s, i) < s.len() ==> !is_space(s[next_word(s, i)]),
    decreases s.len() - i,
{
    if i < s.len() && is_space(s[i]) {
        lemma_space_before(s, i + 1);
    }
}

proof fn lemma_space_behind(s: Seq<char>, n: int)
    requires
        0 <= n <= s.len(),
    ensures
        0 <= last_word_end(s, n) <= n,
        forall|k: int| last_word_end(s, n) <= k < n ==> is_space(#[trigger] s[k]),
        last_word_end(s, n) > 0 ==> !is_space(s[last_word_end(s, n) - 1]),
    decreases n,
{
    if n > 0 && is_space(s[n - 1]) {
        lemma_space_behind(s, n - 1);
    }
}

proof fn lemma_dense_trimmed(s: Seq<char>)
    ensures
        dense(trim(s)) == dense(s),
        dense(trim_start(s)) == dense(s),
        trim_start(s).len() <= s.len(),
        trim(s).len() <= s.len(),
        s.len() > 0 && is_space(s[0]) ==> trim(s).len() < s.len(),
{
    lemma_space_before(s, 0);
    lemma_space_behind(s, s.len() as int);
    let a = next_word(s, 0);
    let b = last_word_end(s, s.len() as int);
    let head = s.take(a);
    assert forall|k: int| 0 <= k < head.len() implies is_space(#[trigger] head[k]) by {
        assert(is_space(s[k]));
    }
    lemma_dense_of_space(head);
    lemma_dense_split(s, a);
    assert(dense(s) =~= dense(s.skip(a)));
    if a < b {
        let rest = s.skip(a);
        let tail = rest.skip(b - a);
        assert forall|k: int| 0 <= k < tail.len() implies is_space(#[trigger] tail[k]) by {
            assert(is_space(s[b + k]));
        }
        lemma_dense_of_space(tail);
        lemma_dense_split(rest, b - a);
        assert(rest.take(b - a) =~= s.subrange(a, b));
        assert(dense(rest) =~= dense(s.subrange(a, b)));
    } else {
        assert forall|k: int| 0 <= k < s.len() implies is_space(#[trigger] s[k]) by {
            if k < a {
                assert(is_space(s[k]));
            }
        }
        lemma_dense_of_space(s);
    }
}

proof fn lemma_dense_pushed(parts: Seq<Seq<char>>, s: Seq<char>)
    ensures
        all_dense(parts.push(s)) == all_dense(parts) + dense(s),
{
    assert(parts.push(s).drop_last() =~= parts);
}

proof fn lemma_all_dense_joined(a: Seq<Seq<char>>, b: Seq<Seq<char>>)
    ensures
        all_dense(a + b) == all_dense(a) + all_dense(b),
    decreases b.len(),
{
    if b.len() == 0 {
        assert(a + b =~= a);
        assert(all_dense(a) + all_dense(b) =~= all_dense(a));
    } else {
        lemma_all_dense_joined(a, b.drop_last());
        assert((a + b).drop_last() =~= a + b.drop_last());
        assert((a + b).last() == b.last());
        assert(all_dense(a + b) =~= all_dense(a) + all_dense(b));
    }
}

proof fn lemma_fragments_keep_text(s: Seq<char>, i: int, start: int, done: Seq<Seq<char>>)
    requires
        0 <= start <= i <= s.len(),
    ensures
        all_dense(raw_fragments(s, i, start, done)) == all_dense(done) + dense(s.skip(start)),
    decreases s.len() - i,
{
    if i >= s.len() {
        if start < s.len() {
            lemma_dense_pushed(done, s.skip(start));
        } else {
            assert(s.skip(start) =~= seq![]);
            assert(all_dense(done) + dense(s.skip(start)) =~= all_dense(done));
        }
    } else if ends_fragment(s, i) {
        let part = s.subrange(start, i + 1);
        lemma_fragments_keep_text(s, i + 1, i + 1, done.push(part));
        lemma_dense_pushed(done, part);
        let rest = s.skip(start);
        lemma_dense_split(rest, i + 1 - start);
        assert(rest.take(i + 1 - start) =~= part);
        assert(rest.skip(i + 1 - start) =~= s.skip(i + 1));
        assert(all_dense(done) + dense(part) + dense(s.skip(i + 1)) =~= all_dense(done) + dense(
            rest,
        ));
    } else {
        lemma_fragments_keep_text(s, i + 1, start, done);
    }
}

proof fn lemma_merging_keeps_text(
    fragments: Seq<Seq<char>>,
    i: int,
    pending: Seq<char>,
    done: Seq<Seq<char>>,
)
    requires
        0 <= i <= fragments.len(),
    ensures
        all_dense(merged_from(fragments, i, pending, done)) == all_dense(done) + dense(pending)
            + all_dense(fragments.skip(i)),
    decreases fragments.len() - i,
{
    let rest = fragments.skip(i);
    if i >= fragments.len() {
        assert(rest =~= seq![]);
        lemma_dense_trimmed(pending);
        if trim(pending).len() > 0 {
            lemma_dense_pushed(done, pending);
        } else {
            assert(trim(pending) =~= seq![]);
        }
        assert(all_dense(done) + dense(pending) + all_dense(rest) =~= all_dense(done) + dense(
            pending,
        ));
        assert(trim(pending).len() == 0 ==> all_dense(done) + dense(pending) =~= all_dense(done));
    } else {
        let f = trim(fragments[i]);
        lemma_dense_trimmed(fragments[i]);
        let more = fragments.skip(i + 1);
        assert(rest =~= seq![fragments[i]] + more);
        lemma_all_dense_joined(seq![fragments[i]], more);
        assert(seq![fragments[i]] =~= Seq::<Seq<char>>::empty().push(fragments[i]));
        lemma_dense_pushed(seq![], fragments[i]);
        assert(all_dense(seq![fragments[i]]) =~= dense(f));
        let all = all_dense(done) + dense(pending) + all_dense(rest);
        assert(all =~= all_dense(done) + dense(pending) + dense(f) + all_dense(more));
        if f.len() == 0 {
            assert(f =~= seq![]);
            lemma_merging_keeps_text(fragments, i + 1, pending, done);
            assert(all =~= all_dense(done) + dense(pending) + all_dense(more));
        } else {
            let next = if pending.len() == 0 {
                f
            } else {
                pending.push(' ') + f
            };
            assert(dense(next) =~= dense(pending) + dense(f)) by {
                if pending.len() > 0 {
                    lemma_dense_joined(pending.push(' '), f);
                    assert(pending.push(' ').drop_last() =~= pending);
                } else {
                    assert(dense(pending) =~= seq![]);
                }
            }
            if trim(next).len() >= MIN_SENTENCE_LENGTH {
                lemma_merging_keeps_text(fragments, i + 1, seq![], done.push(next));
                lemma_dense_pushed(done, next);
                assert(all =~= all_dense(done) + dense(next) + Seq::<char>::empty() + all_dense(
                    more,
                ));
            } else {
                lemma_merging_keeps_text(fragments, i + 1, next, done);
                assert(all =~= all_dense(done) + dense(next) + all_dense(more));
            }
        }
    }
}

proof fn lemma_cutting_keeps_text(s: Seq<char>, done: Seq<Seq<char>>)
    ensures
        all_dense(long_pieces(s, done)) == all_dense(done) + dense(s),
    decreases s.len(),
{
    if s.len() <= MAX_SENTENCE_LENGTH {
        if s.len() == 0 {
            assert(all_dense(done) + dense(s) =~= all_dense(done));
        } else {
            lemma_dense_pushed(done, s);
        }
    } else {
        lemma_cut_fits(s);
        let at = cut_place(s);
        let rest = trim_start(s.skip(at));
        lemma_dense_trimmed(s.skip(at));
        lemma_dense_split(s, at);
        lemma_dense_pushed(done, s.take(at));
        lemma_cutting_keeps_text(rest, done.push(s.take(at)));
        assert(all_dense(done) + dense(s.take(at)) + dense(rest) =~= all_dense(done) + dense(s));
    }
}

proof fn lemma_pieces_keep_text(fragments: Seq<Seq<char>>, i: int, done: Seq<Seq<char>>)
    requires
        0 <= i <= fragments.len(),
    ensures
        all_dense(all_pieces(fragments, i, done)) == all_dense(done) + all_dense(
            fragments.skip(i),
        ),
    decreases fragments.len() - i,
{
    let rest = fragments.skip(i);
    if i >= fragments.len() {
        assert(rest =~= seq![]);
        assert(all_dense(done) + all_dense(rest) =~= all_dense(done));
    } else {
        let f = trim(fragments[i]);
        lemma_dense_trimmed(fragments[i]);
        lemma_cutting_keeps_text(f, done);
        lemma_pieces_keep_text(fragments, i + 1, long_pieces(f, done));
        let more = fragments.skip(i + 1);
        assert(rest =~= seq![fragments[i]] + more);
        lemma_all_dense_joined(seq![fragments[i]], more);
        assert(seq![fragments[i]] =~= Seq::<Seq<char>>::empty().push(fragments[i]));
        lemma_dense_pushed(seq![], fragments[i]);
        assert(all_dense(done) + dense(f) + all_dense(more) =~= all_dense(done) + all_dense(rest));
    }
}

proof fn lemma_trimming_keeps_text(parts: Seq<Seq<char>>)
    ensures
        all_dense(trimmed_items(parts)) == all_dense(parts),
    decreases parts.len(),
{
    if parts.len() > 0 {
        let rest = trimmed_items(parts.drop_last());
        let t = trim(parts.last());
        lemma_trimming_keeps_text(parts.drop_last());
        lemma_dense_trimmed(parts.last());
        if t.len() == 0 {
            assert(t =~= seq![]);
            assert(all_dense(parts.drop_last()) + dense(t) =~= all_dense(parts.drop_last()));
        } else {
            lemma_dense_pushed(rest, t);
        }
    }
}

/// The sentences of a text hold all of it but whitespace, in order.
pub proof fn law_sentences_keep_text(text: Seq<char>)
    ensures
        all_dense(answer_sentences(text)) == dense(text),
{
    let fragments = raw_fragments(text, 0, 0, seq![]);
    let merged = merged_from(fragments, 0, seq![], seq![]);
    lemma_fragments_keep_text(text, 0, 0, seq![]);
    assert(text.skip(0) =~= text);
    lemma_merging_keeps_text(fragments, 0, seq![], seq![]);
    assert(fragments.skip(0) =~= fragments);
    lemma_pieces_keep_text(merged, 0, seq![]);
    assert(merged.skip(0) =~= merged);
    lemma_trimming_keeps_text(all_pieces(merged, 0, seq![]));
    assert(all_dense(answer_sentences(text)) =~= dense(text));
}

/// The characters of texts.
spec fn total_len(parts: Seq<Seq<char>>) -> int
    decreases parts.len(),
{
    if parts.len() == 0 {
        0
    } else {
        total_len(parts.drop_last()) + parts.last().len()
    }
}

/// Whether each text but the first starts with whitespace.
spec fn spaced(parts: Seq<Seq<char>>) -> bool {
    forall|k: int| 0 < k < parts.len() ==> (#[trigger] parts[k]).len() > 0 && is_space(parts[k][0])
}

proof fn lemma_fragments_are_spaced(s: Seq<char>, i: int, start: int, done: Seq<Seq<char>>)
    requires
        0 <= start <= i <= s.len(),
        spaced(done),
        done.len() > 0 && start < s.len() ==> is_space(s[start]),
    ensures
        spaced(raw_fragments(s, i, start, done)),
        total_len(raw_fragments(s, i, start, done)) == total_len(done) + s.len() - start,
    decreases s.len() - i,
{
    if i >= s.len() {
        if start < s.len() {
            assert(done.push(s.skip(start)).drop_last() =~= done);
            assert(s.skip(start)[0] == s[start]);
        }
    } else if ends_fragment(s, i) {
        let part = s.subrange(start, i + 1);
        assert(done.push(part).drop_last() =~= done);
        assert(part[0] == s[start]);
        lemma_fragments_are_spaced(s, i + 1, i + 1, done.push(part));
    } else {
        lemma_fragments_are_spaced(s, i + 1, start, done);
    }
}

/// Whether texts have at most so many characters, and each but the last as many, when
/// trimmed, as a sentence has at least.
spec fn well_merged(parts: Seq<Seq<char>>, most: int, open: bool) -> bool {
    forall|k: int|
        0 <= k < parts.len() ==> 0 < trim(#[trigger] parts[k]).len() && parts[k].len() <= most && (
        k < parts.len() - 1 || !open ==> trim(parts[k]).len() >= MIN_SENTENCE_LENGTH)
}

proof fn lemma_total_len_split(parts: Seq<Seq<char>>, i: int)
    requires
        0 <= i < parts.len(),
    ensures
        total_len(parts.skip(i)) == parts[i].len() + total_len(parts.skip(i + 1)),
    decreases parts.len(),
{
    let a = parts.skip(i);
    let b = parts.skip(i + 1);
    if i == parts.len() - 1 {
        assert(b =~= seq![]);
        assert(a.drop_last() =~= seq![]);
        assert(a.last() == parts[i]);
    } else {
        lemma_total_len_split(parts.drop_last(), i);
        assert(a.drop_last() =~= parts.drop_last().skip(i));
        assert(b.drop_last() =~= parts.drop_last().skip(i + 1));
        assert(a.last() == b.last());
    }
}

proof fn lemma_total_len_nonnegative(parts: Seq<Seq<char>>)
    ensures
        total_len(parts) >= 0,
    decreases parts.len(),
{
    if parts.len() > 0 {
        lemma_total_len_nonnegative(parts.drop_last());
    }
}

proof fn lemma_merged_well(
    fragments: Seq<Seq<char>>,
    i: int,
    pending: Seq<char>,
    done: Seq<Seq<char>>,
    most: int,
)
    requires
        0 <= i <= fragments.len(),
        spaced(fragments),
        pending.len() > 0 ==> i > 0,
        pending.len() + total_len(fragments.skip(i)) <= most,
        well_merged(done, most, false),
    ensures
        well_merged(merged_from(fragments, i, pending, done), most, true),
    decreases fragments.len() - i,
{
    if i >= fragments.len() {
        lemma_total_len_nonnegative(fragments.skip(i));
        if trim(pending).len() > 0 {
            let all = done.push(pending);
            assert forall|k: int| 0 <= k < all.len() implies 0 < trim(#[trigger] all[k]).len()
                && all[k].len() <= most && (k < all.len() - 1 ==> trim(all[k]).len()
                >= MIN_SENTENCE_LENGTH) by {
                if k < done.len() {
                    assert(all[k] == done[k]);
                }
            }
        }
    } else {
        let f = trim(fragments[i]);
        lemma_dense_trimmed(fragments[i]);
        lemma_total_len_split(fragments, i);
        if f.len() == 0 {
            lemma_merged_well(fragments, i + 1, pending, done, most);
        } else {
            let next = if pending.len() == 0 {
                f
            } else {
                pending.push(' ') + f
            };
            lemma_total_len_nonnegative(fragments.skip(i + 1));
            assert(next.len() <= pending.len() + fragments[i].len());
            if trim(next).len() >= MIN_SENTENCE_LENGTH {
                let all = done.push(next);
                assert forall|k: int| 0 <= k < all.len() implies trim(#[trigger] all[k]).len()
                    >= MIN_SENTENCE_LENGTH && all[k].len() <= most by {
                    if k < done.len() {
                        assert(all[k] == done[k]);
                    }
                }
                lemma_merged_well(fragments, i + 1, seq![], done.push(next), most);
            } else {
                lemma_merged_well(fragments, i + 1, next, done, most);
            }
        }
    }
}

/// Texts that need no cutting are only trimmed.
proof fn lemma_short_pieces(parts: Seq<Seq<char>>, i: int, done: Seq<Seq<char>>)
    requires
        0 <= i <= parts.len(),
        forall|k: int|
            0 <= k < parts.len() ==> 0 < trim(#[trigger] parts[k]).len() && parts[k].len()
                <= MAX_SENTENCE_LENGTH,
    ensures
        all_pieces(parts, i, done) == done + Seq::new(
            (parts.len() - i) as nat,
            |k: int| trim(parts[i + k]),
        ),
    decreases parts.len() - i,
{
    let all = done + Seq::new((parts.len() - i) as nat, |k: int| trim(parts[i + k]));
    if i >= parts.len() {
        assert(all =~= done);
    } else {
        let t = trim(parts[i]);
        lemma_dense_trimmed(parts[i]);
        assert(long_pieces(t, done) == done.push(t));
        lemma_short_pieces(parts, i + 1, done.push(t));
        assert(all =~= done.push(t) + Seq::new(
            (parts.len() - (i + 1)) as nat,
            |k: int| trim(parts[i + 1 + k]),
        ));
    }
}

proof fn lemma_trimmed_stay(parts: Seq<Seq<char>>)
    requires
        forall|k: int|
            0 <= k < parts.len() ==> (#[trigger] parts[k]).len() > 0 && trim(parts[k]) == parts[k],
    ensures
        trimmed_items(parts) == parts,
    decreases parts.len(),
{
    if parts.len() > 0 {
        let rest = parts.drop_last();
        assert forall|k: int| 0 <= k < rest.len() implies (#[trigger] rest[k]).len() > 0 && trim(
            rest[k],
        ) == rest[k] by {
            assert(rest[k] == parts[k]);
        }
        lemma_trimmed_stay(rest);
        assert(parts[parts.len() - 1] == parts.last());
        assert(rest.push(parts.last()) =~= parts);
    } else {
        assert(trimmed_items(parts) =~= parts);
    }
}

/// In a text of at most [`MAX_SENTENCE_LENGTH`] characters only the last sentence has
/// fewer than [`MIN_SENTENCE_LENGTH`] characters.
pub proof fn law_only_the_last_sentence_is_short(text: Seq<char>, i: int)
    requires
        text.len() <= MAX_SENTENCE_LENGTH,
        0 <= i < answer_sentences(text).len() - 1,
    ensures
        answer_sentences(text)[i].len() >= MIN_SENTENCE_LENGTH,
{
    let fragments = raw_fragments(text, 0, 0, seq![]);
    let merged = merged_from(fragments, 0, seq![], seq![]);
    let most = text.len() as int;
    lemma_fragments_are_spaced(text, 0, 0, seq![]);
    assert(fragments.skip(0) =~= fragments);
    lemma_merged_well(fragments, 0, seq![], seq![], most);
    lemma_short_pieces(merged, 0, seq![]);
    let pieces = all_pieces(merged, 0, seq![]);
    assert(pieces =~= Seq::new(merged.len(), |k: int| trim(merged[k])));
    assert forall|k: int| 0 <= k < pieces.len() implies (#[trigger] pieces[k]).len() > 0 && trim(
        pieces[k],
    ) == pieces[k] by {
        law_trim_is_idempotent(merged[k]);
        assert(trim(merged[k]).len() > 0);
    }
    lemma_trimmed_stay(pieces);
    assert(answer_sentences(text)[i] == trim(merged[i]));
}

} // verus!
