//! What synonym rules say, from how they are written.
use crate::service::synonyms::{
    RuleV, SynonymMapV, expansions_of, law_expansions, lowered_words, map_outputs, next_arrow,
    rule_of, rule_outputs, rules_from, rules_of, side_terms, synonym_terms,
};
use crate::text::{lowercase, pieces, trim, words};
use crate::text_laws::{lacks, law_pieces};
use vstd::prelude::*;

verus! {

// ---------------------------------------------------------------------------
// Expansion
// ---------------------------------------------------------------------------

proof fn lemma_rule_outputs(rules: Seq<RuleV>, n: int, word: Seq<char>, term: Seq<char>)
    requires
        0 <= n <= rules.len(),
    ensures
        rule_outputs(rules, n, word).contains(term) <==> exists|r: int|
            0 <= r < n && (#[trigger] rules[r]).inputs.contains(word) && rules[r].outputs.contains(
                term,
            ),
    decreases n,
{
    if n > 0 {
        lemma_rule_outputs(rules, n - 1, word, term);
        let before = rule_outputs(rules, n - 1, word);
        let all = rule_outputs(rules, n, word);
        let own = rules[n - 1].outputs;
        if before.contains(term) {
            let j = choose|j: int| 0 <= j < before.len() && before[j] == term;
            assert(all[j] == term);
        }
        if rules[n - 1].inputs.contains(word) && own.contains(term) {
            let j = choose|j: int| 0 <= j < own.len() && own[j] == term;
            assert(all[before.len() as int + j] == term);
        }
        if all.contains(term) {
            let j = choose|j: int| 0 <= j < all.len() && all[j] == term;
            if j < before.len() {
                assert(before[j] == term);
            } else {
                assert(own[j - before.len()] == term);
            }
        }
    }
}

proof fn lemma_map_outputs(maps: Seq<SynonymMapV>, n: int, word: Seq<char>, term: Seq<char>)
    requires
        0 <= n <= maps.len(),
    ensures
        map_outputs(maps, n, word).contains(term) <==> exists|m: int, r: int|
            0 <= m < n && 0 <= r < maps[m].rules.len() && (
            #[trigger] maps[m].rules[r]).inputs.contains(word) && maps[m].rules[r].outputs.contains(
                term,
            ),
    decreases n,
{
    if n > 0 {
        lemma_map_outputs(maps, n - 1, word, term);
        let rules = maps[n - 1].rules;
        lemma_rule_outputs(rules, rules.len() as int, word, term);
        let before = map_outputs(maps, n - 1, word);
        let own = rule_outputs(rules, rules.len() as int, word);
        let all = map_outputs(maps, n, word);
        if before.contains(term) {
            let j = choose|j: int| 0 <= j < before.len() && before[j] == term;
            assert(all[j] == term);
        }
        if own.contains(term) {
            let j = choose|j: int| 0 <= j < own.len() && own[j] == term;
            assert(all[before.len() as int + j] == term);
        }
        if all.contains(term) {
            let j = choose|j: int| 0 <= j < all.len() && all[j] == term;
            if j < before.len() {
                assert(before[j] == term);
            } else {
                assert(own[j - before.len()] == term);
                let r = choose|r: int|
                    0 <= r < rules.len() && (#[trigger] rules[r]).inputs.contains(word)
                        && rules[r].outputs.contains(term);
                assert(maps[n - 1].rules[r].inputs.contains(word));
            }
        }
        if exists|m: int, r: int|
            0 <= m < n && 0 <= r < maps[m].rules.len() && (
            #[trigger] maps[m].rules[r]).inputs.contains(word) && maps[m].rules[r].outputs.contains(
                term,
            ) {
            let (m, r) = choose|m: int, r: int|
                0 <= m < n && 0 <= r < maps[m].rules.len() && (
                #[trigger] maps[m].rules[r]).inputs.contains(word)
                    && maps[m].rules[r].outputs.contains(term);
            if m == n - 1 {
                assert(rules[r].inputs.contains(word));
            } else {
                assert(maps[m].rules[r].inputs.contains(word));
            }
        }
    }
}

/// A word is expanded, whatever its case, by each output of each rule of each map that
/// has the word as an input, and by nothing else; not by itself.
pub proof fn law_every_rule_expands(maps: Seq<SynonymMapV>, word: Seq<char>, term: Seq<char>)
    ensures
        expansions_of(maps, word).contains(term) <==> term != lowercase(word) && exists|
            m: int,
            r: int,
        |
            0 <= m < maps.len() && 0 <= r < maps[m].rules.len() && (
            #[trigger] maps[m].rules[r]).inputs.contains(lowercase(word))
                && maps[m].rules[r].outputs.contains(term),
{
    law_expansions(maps, word, term);
    lemma_map_outputs(maps, maps.len() as int, lowercase(word), term);
}

// ---------------------------------------------------------------------------
// Sides
// ---------------------------------------------------------------------------

proof fn lemma_sides_joined(
    x: Seq<Seq<char>>,
    y: Seq<Seq<char>>,
    i: int,
    done: Seq<Seq<char>>,
    k: nat,
)
    requires
        0 <= i <= y.len(),
    ensures
        side_terms(x + y, x.len() + i, done, k) == (match side_terms(y, i, seq![], k) {
            Ok(r) => Ok(done + r),
            Err(e) => Err(e),
        }),
    decreases y.len() - i,
{
    let all = x + y;
    if i < y.len() {
        assert(all[x.len() as int + i] == y[i]);
        let own = lowered_words(words(y[i]));
        if words(y[i]).len() > 0 {
            lemma_sides_joined(x, y, i + 1, done + own, k);
            let none = Seq::<Seq<char>>::empty();
            lemma_sides_joined(none, y, i + 1, own, k);
            assert(none + y =~= y);
            assert(none + own =~= own);
            match side_terms(y, i + 1, seq![], k) {
                Ok(r) => {
                    assert(done + own + r =~= done + (own + r));
                },
                Err(e) => {},
            }
        }
    } else {
        assert(done + Seq::<Seq<char>>::empty() =~= done);
    }
}

proof fn lemma_sides_first(
    x: Seq<Seq<char>>,
    y: Seq<Seq<char>>,
    i: int,
    done: Seq<Seq<char>>,
    k: nat,
)
    requires
        0 <= i <= x.len(),
    ensures
        side_terms(x + y, i, done, k) == (match side_terms(x, i, done, k) {
            Ok(r) => side_terms(x + y, x.len() as int, r, k),
            Err(e) => Err(e),
        }),
    decreases x.len() - i,
{
    if i < x.len() {
        assert((x + y)[i] == x[i]);
        if words(x[i]).len() > 0 {
            lemma_sides_first(x, y, i + 1, done + lowered_words(words(x[i])), k);
        }
    }
}

/// The terms of one side of a rule: those of two lists with a comma between them are
/// those of the one and then those of the other; without a comma they are the words of
/// the text in lowercase, each in its place, of which there must be one.
pub proof fn law_side_of_a_rule(a: Seq<char>, b: Seq<char>, k: nat, i: int)
    ensures
        synonym_terms(a + seq![','] + b, k) == (match synonym_terms(a, k) {
            Err(e) => Err(e),
            Ok(x) => match synonym_terms(b, k) {
                Err(e) => Err(e),
                Ok(y) => Ok(x + y),
            },
        }),
        lacks(a, ',') ==> (match synonym_terms(a, k) {
            Ok(x) => words(a).len() > 0 && x.len() == words(a).len() && (0 <= i < x.len() ==> x[i]
                == lowercase(words(a)[i])),
            Err(_) => words(a).len() == 0,
        }),
{
    law_pieces(a, ',', b);
    let x = pieces(a, ',');
    let y = pieces(b, ',');
    lemma_sides_first(x, y, 0, seq![], k);
    match side_terms(x, 0, seq![], k) {
        Ok(r) => lemma_sides_joined(x, y, 0, r, k),
        Err(e) => {},
    }
    if lacks(a, ',') {
        assert(x == seq![a]);
        let own = lowered_words(words(a));
        assert(Seq::<Seq<char>>::empty() + own =~= own);
        assert(side_terms(x, 1, own, k) == Ok::<Seq<Seq<char>>, Seq<char>>(own));
    }
}

// ---------------------------------------------------------------------------
// Rules
// ---------------------------------------------------------------------------

/// Whether a text has no arrow.
pub open spec fn no_arrow(s: Seq<char>) -> bool {
    forall|i: int| 0 <= i < s.len() - 1 ==> !(#[trigger] s[i] == '=' && s[i + 1] == '>')
}

proof fn lemma_arrow(s: Seq<char>, i: int, at: int)
    requires
        0 <= i <= at <= s.len(),
        forall|k: int| i <= k < at && k + 1 < s.len() ==> !(#[trigger] s[k] == '=' && s[k + 1] == '>'),
        at < s.len() ==> at + 1 < s.len() && s[at] == '=' && s[at + 1] == '>',
    ensures
        next_arrow(s, i) == at,
    decreases at - i,
{
    if i < at && i + 1 < s.len() {
        assert(!(s[i] == '=' && s[i + 1] == '>'));
        lemma_arrow(s, i + 1, at);
    }
}

/// What stands before the arrow of a rule is what it rewrites, and what stands behind it
/// what it adds; without an arrow each term is both.
pub proof fn law_rule(from: Seq<char>, to: Seq<char>, k: nat)
    requires
        no_arrow(from),
    ensures
        rule_of(from + "=>"@ + to, k) == (match synonym_terms(from, k) {
            Err(e) => Err(e),
            Ok(inputs) => match synonym_terms(to, k) {
                Err(e) => Err(e),
                Ok(outputs) => Ok(RuleV { inputs, outputs }),
            },
        }),
        rule_of(from, k) == (match synonym_terms(from, k) {
            Err(e) => Err(e),
            Ok(terms) => Ok(RuleV { inputs: terms, outputs: terms }),
        }),
{
    reveal_strlit("=>");
    let s = from + "=>"@ + to;
    let n = from.len() as int;
    assert(s[n] == '=' && s[n + 1] == '>');
    assert forall|k: int| 0 <= k < n && k + 1 < s.len() implies !(#[trigger] s[k] == '=' && s[k + 1]
        == '>') by {
        assert(s[k] == from[k]);
        if k + 1 < n {
            assert(s[k + 1] == from[k + 1]);
        }
    }
    lemma_arrow(s, 0, n);
    lemma_arrow(from, 0, n);
    assert(s.take(n) =~= from);
    assert(s.skip(n + 2) =~= to);
}

proof fn lemma_side_number(phrases: Seq<Seq<char>>, i: int, done: Seq<Seq<char>>, k: nat, m: nat)
    ensures
        side_terms(phrases, i, done, k) is Ok <==> side_terms(phrases, i, done, m) is Ok,
        side_terms(phrases, i, done, k) is Ok ==> side_terms(phrases, i, done, k) == side_terms(
            phrases,
            i,
            done,
            m,
        ),
    decreases phrases.len() - i,
{
    if i < phrases.len() && words(phrases[i]).len() > 0 {
        lemma_side_number(phrases, i + 1, done + lowered_words(words(phrases[i])), k, m);
    }
}

proof fn lemma_rule_number(line: Seq<char>, k: nat, m: nat)
    ensures
        rule_of(line, k) is Ok <==> rule_of(line, m) is Ok,
        rule_of(line, k) is Ok ==> rule_of(line, k) == rule_of(line, m),
{
    let at = next_arrow(line, 0);
    lemma_side_number(pieces(line, ','), 0, seq![], k, m);
    lemma_side_number(pieces(line.take(at), ','), 0, seq![], k, m);
    lemma_side_number(pieces(line.skip(at + 2), ','), 0, seq![], k, m);
}

proof fn lemma_rules_joined(x: Seq<Seq<char>>, y: Seq<Seq<char>>, i: int, done: Seq<RuleV>)
    requires
        0 <= i <= y.len(),
    ensures
        rules_from(x + y, x.len() + i, done) is Ok <==> rules_from(y, i, seq![]) is Ok,
        rules_from(y, i, seq![]) matches Ok(r) ==> rules_from(x + y, x.len() + i, done) == Ok::<
            Seq<RuleV>,
            Seq<char>,
        >(done + r),
    decreases y.len() - i,
{
    let all = x + y;
    if i < y.len() {
        assert(all[x.len() as int + i] == y[i]);
        let line = trim(y[i]);
        if line.len() == 0 {
            lemma_rules_joined(x, y, i + 1, done);
        } else {
            lemma_rule_number(line, (x.len() + i + 1) as nat, (i + 1) as nat);
            if let Ok(rule) = rule_of(line, (i + 1) as nat) {
                lemma_rules_joined(x, y, i + 1, done.push(rule));
                let none = Seq::<Seq<char>>::empty();
                let one = Seq::<RuleV>::empty().push(rule);
                lemma_rules_joined(none, y, i + 1, one);
                assert(none + y =~= y);
                if let Ok(r) = rules_from(y, i + 1, seq![]) {
                    assert(done.push(rule) + r =~= done + (one + r));
                }
            }
        }
    } else {
        assert(done + Seq::<RuleV>::empty() =~= done);
    }
}

proof fn lemma_rules_first(x: Seq<Seq<char>>, y: Seq<Seq<char>>, i: int, done: Seq<RuleV>)
    requires
        0 <= i <= x.len(),
    ensures
        rules_from(x + y, i, done) == (match rules_from(x, i, done) {
            Ok(r) => rules_from(x + y, x.len() as int, r),
            Err(e) => Err(e),
        }),
    decreases x.len() - i,
{
    if i < x.len() {
        assert((x + y)[i] == x[i]);
        let line = trim(x[i]);
        if line.len() == 0 {
            lemma_rules_first(x, y, i + 1, done);
        } else if let Ok(rule) = rule_of(line, (i + 1) as nat) {
            lemma_rules_first(x, y, i + 1, done.push(rule));
        }
    }
}

/// The rules of two texts with the end of a line between them are those of the one and
/// then those of the other; one line is one rule, and a blank one is none.
pub proof fn law_every_line_is_a_rule(a: Seq<char>, b: Seq<char>)
    ensures
        rules_of(a + seq!['\n'] + b) is Ok <==> rules_of(a) is Ok && rules_of(b) is Ok,
        rules_of(a + seq!['\n'] + b) is Ok ==> rules_of(a + seq!['\n'] + b)->Ok_0 == rules_of(
            a,
        )->Ok_0 + rules_of(b)->Ok_0,
        lacks(a, '\n') ==> rules_of(a) == (if trim(a).len() == 0 {
            Ok::<Seq<RuleV>, Seq<char>>(seq![])
        } else {
            match rule_of(trim(a), 1) {
                Ok(rule) => Ok(seq![rule]),
                Err(e) => Err(e),
            }
        }),
{
    law_pieces(a, '\n', b);
    let x = pieces(a, '\n');
    let y = pieces(b, '\n');
    lemma_rules_first(x, y, 0, seq![]);
    if let Ok(r) = rules_from(x, 0, seq![]) {
        lemma_rules_joined(x, y, 0, r);
    }
    if lacks(a, '\n') {
        assert(x == seq![a]);
        assert(rules_from(x, 1, seq![]) == Ok::<Seq<RuleV>, Seq<char>>(seq![]));
        if let Ok(rule) = rule_of(trim(a), 1) {
            assert(Seq::<RuleV>::empty().push(rule) =~= seq![rule]);
            assert(rules_from(x, 1, seq![rule]) == Ok::<Seq<RuleV>, Seq<char>>(seq![rule]));
        }
    }
}

} // verus!
