//! How deeply the groups and negations of a query text are nested, which bounds how
//! deeply the index's query parser recurses.
use crate::text::{
    ascii_letter, chars_of, find_word, is_ascii_letter, is_space, next_word, space, stands_at,
};
use vstd::prelude::*;

verus! {

/// The bound on groups and negations that are open at once. Parsing takes some ten
/// kilobytes of stack for each, so that a stack of two megabytes holds half as many
/// again.
pub const MAX_NESTING: usize = 100;

/// How the next character of a query text is read.
pub enum Reading {
    /// It counts, and can open or close a group.
    Plain,
    /// A backslash takes it as it is.
    Escaped,
    /// It is part of a text in double quotes.
    Double,
    /// It is part of such a text, behind a backslash.
    DoubleEscaped,
    /// It is part of a text in single quotes.
    Single,
    /// It is part of such a text, behind a backslash.
    SingleEscaped,
    /// It is part of a regular expression between slashes.
    Regex,
}

/// Whether a regular expression can end at a place: there is a slash behind no
/// backslash, and what follows it ends a clause.
pub open spec fn ends_regex(s: Seq<char>, i: int) -> bool {
    s[i] == '/' && s[i - 1] != '\\' && (i + 1 >= s.len() || is_space(s[i + 1]) || s[i + 1] == ')'
        || s[i + 1] == '^')
}

/// Whether the character at place `i` can be read so that `depth` groups are open
/// behind it and the next character is read in a way, after how the text before it
/// can be read. A double quote always begins
/// a quoted text; a single quote, a slash, and a backslash can also be part of a
/// word.
pub open spec fn reads_on(
    s: Seq<char>,
    i: int,
    before: spec_fn(Reading, int) -> bool,
    how: Reading,
    depth: int,
) -> bool {
    let c = s[i];
    match how {
        Reading::Plain => {
            ||| before(Reading::Escaped, depth)
            ||| c == '(' && before(Reading::Plain, depth - 1)
            ||| c == ')' && before(Reading::Plain, depth + 1)
            ||| c == ')' && depth == 0 && before(Reading::Plain, 0)
            ||| c != '(' && c != ')' && c != '"' && before(Reading::Plain, depth)
            ||| c == '"' && before(Reading::Double, depth)
            ||| c == '\'' && before(Reading::Single, depth)
            ||| ends_regex(s, i) && before(Reading::Regex, depth)
        },
        Reading::Escaped => c == '\\' && before(Reading::Plain, depth),
        Reading::Double => {
            ||| c == '"' && before(Reading::Plain, depth)
            ||| before(Reading::DoubleEscaped, depth)
            ||| c != '"' && c != '\\' && before(Reading::Double, depth)
        },
        Reading::DoubleEscaped => c == '\\' && before(Reading::Double, depth),
        Reading::Single => {
            ||| c == '\'' && before(Reading::Plain, depth)
            ||| before(Reading::SingleEscaped, depth)
            ||| c != '\'' && c != '\\' && before(Reading::Single, depth)
        },
        Reading::SingleEscaped => c == '\\' && before(Reading::Single, depth),
        Reading::Regex => {
            ||| c == '/' && before(Reading::Plain, depth)
            ||| (c != '/' || s[i - 1] == '\\') && before(Reading::Regex, depth)
        },
    }
}

/// Whether the first `i` characters can be read so that `depth` groups are open and
/// the next character is read in a way.
pub open spec fn reads(s: Seq<char>, i: int, how: Reading, depth: int) -> bool
    decreases i,
{
    if depth < 0 {
        false
    } else if i <= 0 {
        how is Plain && depth == 0
    } else {
        reads_on(s, i - 1, |h: Reading, d: int| reads(s, i - 1, h, d), how, depth)
    }
}

/// Whether no more than `most` groups are ever open at once.
pub open spec fn groups_within(s: Seq<char>, most: int) -> bool {
    forall|i: int, depth: int|
        0 <= i <= s.len() && #[trigger] reads(s, i, Reading::Plain, depth) ==> depth <= most
}

/// Whether the word `NOT` stands at a place, with whitespace behind it.
pub open spec fn is_negation(s: Seq<char>, i: int) -> bool {
    stands_at(s, "NOT"@, i) && i + 3 < s.len() && is_space(s[i + 3]) && (i == 0 || !is_ascii_letter(
        s[i - 1],
    ))
}

/// How many negations there are from place `i` on.
pub open spec fn negations_from(s: Seq<char>, i: int) -> nat
    decreases s.len() - i,
{
    if i < 0 || i >= s.len() {
        0
    } else if is_negation(s, i) {
        1 + negations_from(s, i + 1)
    } else {
        negations_from(s, i + 1)
    }
}

/// How many negations stand at a place one behind the other.
pub open spec fn negation_run(s: Seq<char>, i: int) -> nat
    decreases s.len() - i,
{
    if 0 <= i < s.len() && is_negation(s, i) && i < next_word(s, i + 3) <= s.len() {
        1 + negation_run(s, next_word(s, i + 3))
    } else {
        0
    }
}

/// Whether no more than `most` negations ever stand one behind the other.
pub open spec fn runs_within(s: Seq<char>, most: int) -> bool {
    most >= 0 && forall|i: int| 0 <= i < s.len() ==> #[trigger] negation_run(s, i) <= most
}

/// Whether groups and negations stay within the bound: even if all negations are
/// open at once, or if as many as ever stand one behind the other are open in each
/// group.
pub open spec fn is_bounded(groups: int, negations: int, run: int) -> bool {
    groups + negations <= MAX_NESTING || (groups + 1) * (run + 1) <= MAX_NESTING + 1
}

/// Whether a query text is nested no more deeply than parsing, which recurses, can
/// go.
pub open spec fn nests_shallowly(s: Seq<char>) -> bool {
    exists|groups: int, run: int|
        #[trigger] groups_within(s, groups) && #[trigger] runs_within(s, run) && is_bounded(
            groups,
            negations_from(s, 0) as int,
            run,
        )
}

// ---------------------------------------------------------------------------
// Measuring
// ---------------------------------------------------------------------------

/// The most groups that can be open before a place, for a way to read on.
spec fn is_deepest(s: Seq<char>, i: int, how: Reading, depth: Option<usize>) -> bool {
    match depth {
        Some(n) => reads(s, i, how, n as int) && forall|d: int| #[trigger]
            reads(s, i, how, d) ==> d <= n,
        None => forall|d: int| !#[trigger] reads(s, i, how, d),
    }
}

spec fn greater(a: Option<usize>, b: Option<usize>) -> Option<usize> {
    match (a, b) {
        (Some(x), Some(y)) => if x < y {
            b
        } else {
            a
        },
        (None, _) => b,
        _ => a,
    }
}

fn deeper(a: Option<usize>, b: Option<usize>) -> (r: Option<usize>)
    ensures
        r == greater(a, b),
{
    match (a, b) {
        (Some(x), Some(y)) => if x < y {
            b
        } else {
            a
        },
        (None, _) => b,
        _ => a,
    }
}

proof fn lemma_next(s: Seq<char>, i: int)
    requires
        i >= 0,
    ensures
        forall|how: Reading, d: int| #[trigger]
            reads(s, i + 1, how, d) == (d >= 0 && reads_on(
                s,
                i,
                |h: Reading, e: int| reads(s, i, h, e),
                how,
                d,
            )),
        forall|how: Reading, d: int| #[trigger] reads(s, i, how, d) ==> d >= 0,
        i == 0 ==> forall|d: int| !#[trigger] reads(s, i, Reading::Regex, d),
{
    let j = i + 1;
    assert(j - 1 == i);
    assert forall|how: Reading, d: int| #[trigger]
        reads(s, j, how, d) == (d >= 0 && reads_on(
            s,
            i,
            |h: Reading, e: int| reads(s, i, h, e),
            how,
            d,
        )) by {}
}

/// The most groups that can be open before a place, for each way to read on.
struct Depths {
    plain: Option<usize>,
    escaped: Option<usize>,
    double: Option<usize>,
    double_escaped: Option<usize>,
    single: Option<usize>,
    single_escaped: Option<usize>,
    regex: Option<usize>,
}

impl Depths {
    spec fn measures(self, s: Seq<char>, i: int) -> bool {
        &&& is_deepest(s, i, Reading::Plain, self.plain)
        &&& is_deepest(s, i, Reading::Escaped, self.escaped)
        &&& is_deepest(s, i, Reading::Double, self.double)
        &&& is_deepest(s, i, Reading::DoubleEscaped, self.double_escaped)
        &&& is_deepest(s, i, Reading::Single, self.single)
        &&& is_deepest(s, i, Reading::SingleEscaped, self.single_escaped)
        &&& is_deepest(s, i, Reading::Regex, self.regex)
    }

    fn step(&self, s: &Vec<char>, i: usize) -> (r: Depths)
        requires
            i < s@.len(),
            self.measures(s@, i as int),
            self.plain matches Some(n) ==> n <= MAX_NESTING,
        ensures
            r.measures(s@, i + 1),
    {
        let c = s[i];
        let closes = c == '/' && i > 0 && s[i - 1] != '\\' && (s.len() - i <= 1 || space(s[i + 1])
            || s[i + 1] == ')' || s[i + 1] == '^');
        let counted: Option<usize> = match self.plain {
            Some(n) => if c == '(' {
                Some(n + 1)
            } else if c == ')' {
                if n > 0 {
                    Some(n - 1)
                } else {
                    Some(0)
                }
            } else if c == '"' {
                None
            } else {
                self.plain
            },
            None => None,
        };
        let ended: Option<usize> = if c == '"' {
            self.double
        } else if c == '\'' {
            self.single
        } else if closes {
            self.regex
        } else {
            None
        };
        let slashed = i > 0 && s[i - 1] == '\\';
        let r = Depths {
            plain: deeper(deeper(self.escaped, counted), ended),
            escaped: if c == '\\' {
                self.plain
            } else {
                None
            },
            double: deeper(
                if c == '"' {
                    self.plain
                } else if c == '\\' {
                    None
                } else {
                    self.double
                },
                self.double_escaped,
            ),
            double_escaped: if c == '\\' {
                self.double
            } else {
                None
            },
            single: deeper(
                if c == '\'' {
                    self.plain
                } else if c == '\\' {
                    None
                } else {
                    self.single
                },
                self.single_escaped,
            ),
            single_escaped: if c == '\\' {
                self.single
            } else {
                None
            },
            regex: deeper(
                if c == '/' {
                    self.plain
                } else {
                    None
                },
                if c != '/' || slashed {
                    self.regex
                } else {
                    None
                },
            ),
        };
        proof {
            let t = s@;
            let at = i as int;
            assert(is_deepest(t, at + 1, Reading::Plain, r.plain)) by {
                lemma_next(t, at);
            }
            assert(is_deepest(t, at + 1, Reading::Escaped, r.escaped)) by {
                lemma_next(t, at);
            }
            assert(is_deepest(t, at + 1, Reading::Double, r.double)) by {
                lemma_next(t, at);
            }
            assert(is_deepest(t, at + 1, Reading::DoubleEscaped, r.double_escaped)) by {
                lemma_next(t, at);
            }
            assert(is_deepest(t, at + 1, Reading::Single, r.single)) by {
                lemma_next(t, at);
            }
            assert(is_deepest(t, at + 1, Reading::SingleEscaped, r.single_escaped)) by {
                lemma_next(t, at);
            }
            assert(is_deepest(t, at + 1, Reading::Regex, r.regex)) by {
                lemma_next(t, at);
            }
        }
        r
    }
}

/// The most groups that are open at once; none where they are more than the bound.
fn most_groups(s: &Vec<char>) -> (r: Option<usize>)
    ensures
        match r {
            Some(n) => n <= MAX_NESTING && groups_within(s@, n as int) && exists|i: int|
                0 <= i <= s@.len() && #[trigger] reads(s@, i, Reading::Plain, n as int),
            None => exists|i: int, d: int|
                0 <= i <= s@.len() && #[trigger] reads(s@, i, Reading::Plain, d) && d
                    > MAX_NESTING,
        },
{
    let mut depths = Depths {
        plain: Some(0),
        escaped: None,
        double: None,
        double_escaped: None,
        single: None,
        single_escaped: None,
        regex: None,
    };
    let mut most: usize = 0;
    let mut i: usize = 0;
    assert(depths.measures(s@, 0));
    assert(reads(s@, 0, Reading::Plain, 0));
    while i < s.len()
        invariant
            i <= s@.len(),
            most <= MAX_NESTING,
            depths.measures(s@, i as int),
            depths.plain matches Some(n) ==> n <= most,
            exists|k: int| 0 <= k <= s@.len() && #[trigger] reads(s@, k, Reading::Plain, most as int),
            forall|k: int, d: int|
                0 <= k <= i && #[trigger] reads(s@, k, Reading::Plain, d) ==> d <= most,
        decreases s@.len() - i,
    {
        depths = depths.step(s, i);
        i += 1;
        if let Some(n) = depths.plain {
            if n > MAX_NESTING {
                assert(reads(s@, i as int, Reading::Plain, n as int));
                return None;
            }
            if n > most {
                assert(reads(s@, i as int, Reading::Plain, n as int));
                most = n;
            }
        }
    }
    assert(groups_within(s@, most as int));
    Some(most)
}

fn negation_at(s: &Vec<char>, i: usize) -> (r: bool)
    requires
        i < s@.len(),
    ensures
        r == is_negation(s@, i as int),
{
    proof {
        reveal_strlit("NOT");
    }
    let r = s.len() - i > 3 && s[i] == 'N' && s[i + 1] == 'O' && s[i + 2] == 'T' && space(s[i + 3])
        && (i == 0 || !ascii_letter(s[i - 1]));
    proof {
        if r {
            assert(s@.subrange(i as int, i + 3) =~= "NOT"@);
        } else if stands_at(s@, "NOT"@, i as int) {
            assert("NOT"@[0] == s@[i as int]);
            assert("NOT"@[1] == s@[i + 1]);
            assert("NOT"@[2] == s@[i + 2]);
        }
    }
    r
}

fn count_negations(s: &Vec<char>) -> (r: usize)
    ensures
        r == negations_from(s@, 0),
{
    let len: usize = s.len();
    let mut i: usize = len;
    let mut n: usize = 0;
    while i > 0
        invariant
            len == s@.len(),
            i <= len,
            n <= len - i,
            n == negations_from(s@, i as int),
        decreases i,
    {
        i -= 1;
        if negation_at(s, i) {
            n += 1;
        }
    }
    n
}

/// Whether more than `most` negations stand at a place one behind the other.
fn runs_on(s: &Vec<char>, i: usize, most: usize) -> (r: bool)
    requires
        i <= s@.len(),
    ensures
        r == (negation_run(s@, i as int) > most),
{
    let mut k: usize = i;
    let mut n: usize = 0;
    while n <= most && k < s.len() && negation_at(s, k)
        invariant
            i <= k <= s@.len(),
            n <= k - i,
            n <= most + 1,
            negation_run(s@, i as int) == n + negation_run(s@, k as int),
        decreases s@.len() - k,
    {
        k = find_word(s, k + 3);
        n += 1;
    }
    n > most
}

/// The most negations that stand one behind the other; none where they are more
/// than the bound.
fn longest_run(s: &Vec<char>) -> (r: Option<usize>)
    ensures
        match r {
            Some(n) => n <= MAX_NESTING && runs_within(s@, n as int) && (n > 0 ==> exists|i: int|
                0 <= i < s@.len() && #[trigger] negation_run(s@, i) >= n),
            None => exists|i: int|
                0 <= i < s@.len() && #[trigger] negation_run(s@, i) > MAX_NESTING,
        },
{
    let mut run: usize = 0;
    let mut i: usize = 0;
    while i < s.len()
        invariant
            i <= s@.len(),
            run <= MAX_NESTING,
            forall|k: int| 0 <= k < i ==> #[trigger] negation_run(s@, k) <= run,
            run > 0 ==> exists|k: int| 0 <= k < s@.len() && #[trigger] negation_run(s@, k) >= run,
        decreases s@.len() - i,
    {
        while runs_on(s, i, run)
            invariant
                i < s@.len(),
                run <= MAX_NESTING,
                forall|k: int| 0 <= k < i ==> #[trigger] negation_run(s@, k) <= run,
                run > 0 ==> exists|k: int|
                    0 <= k < s@.len() && #[trigger] negation_run(s@, k) >= run,
            decreases MAX_NESTING - run,
        {
            assert(negation_run(s@, i as int) >= run + 1);
            if run == MAX_NESTING {
                return None;
            }
            run += 1;
        }
        i += 1;
    }
    Some(run)
}

proof fn lemma_bound_shrinks(groups: int, run: int, g: int, n: int, negations: int)
    requires
        0 <= groups <= g,
        0 <= run <= n,
        is_bounded(g, negations, n),
    ensures
        is_bounded(groups, negations, run),
{
    assert((groups + 1) * (run + 1) <= (g + 1) * (n + 1)) by (nonlinear_arith)
        requires
            0 <= groups <= g,
            0 <= run <= n,
    ;
}

/// Whether a query text is nested no more deeply than parsing can go.
pub fn is_shallow(text: &str) -> (r: bool)
    ensures
        r == nests_shallowly(text@),
{
    let s = chars_of(text);
    let ghost t = s@;
    let ghost all = negations_from(t, 0) as int;
    let groups = match most_groups(&s) {
        Some(n) => n,
        None => {
            proof {
                let (i, d) = choose|i: int, d: int|
                    0 <= i <= t.len() && #[trigger] reads(t, i, Reading::Plain, d) && d
                        > MAX_NESTING;
                assert forall|g: int, n: int| #[trigger]
                    groups_within(t, g) && #[trigger] runs_within(t, n) implies !is_bounded(
                    g,
                    all,
                    n,
                ) by {
                    assert(g >= d);
                    assert((g + 1) * (n + 1) >= g + 1) by (nonlinear_arith)
                        requires
                            g >= 0,
                            n >= 0,
                    ;
                }
            }
            return false;
        },
    };
    let ghost at = choose|i: int|
        0 <= i <= t.len() && #[trigger] reads(t, i, Reading::Plain, groups as int);
    let total = count_negations(&s);
    if total <= MAX_NESTING - groups {
        proof {
            lemma_some_run(t);
            let n = choose|n: int| runs_within(t, n);
            assert(groups_within(t, groups as int) && runs_within(t, n));
        }
        return true;
    }
    match longest_run(&s) {
        Some(run) => {
            proof {
                assert((groups + 1) * (run + 1) <= 101 * 101) by (nonlinear_arith)
                    requires
                        0 <= groups <= 100,
                        0 <= run <= 100,
                ;
                if is_bounded(groups as int, all, run as int) {
                    assert(groups_within(t, groups as int) && runs_within(t, run as int));
                }
                assert forall|g: int, n: int| #[trigger]
                    groups_within(t, g) && #[trigger] runs_within(t, n) && is_bounded(
                        g,
                        all,
                        n,
                    ) implies is_bounded(groups as int, all, run as int) by {
                    assert(g >= groups);
                    assert(n >= run);
                    lemma_bound_shrinks(groups as int, run as int, g, n, all);
                }
            }
            (groups + 1) * (run + 1) <= MAX_NESTING + 1
        },
        None => {
            proof {
                let k = choose|k: int|
                    0 <= k < t.len() && #[trigger] negation_run(t, k) > MAX_NESTING;
                assert forall|g: int, n: int| #[trigger]
                    groups_within(t, g) && #[trigger] runs_within(t, n) implies !is_bounded(
                    g,
                    all,
                    n,
                ) by {
                    assert(g >= groups);
                    assert(n >= negation_run(t, k));
                    assert((g + 1) * (n + 1) >= n + 1) by (nonlinear_arith)
                        requires
                            g >= 0,
                            n >= 0,
                    ;
                }
            }
            false
        },
    }
}

/// A negation takes up places of its own.
proof fn lemma_run_fits(s: Seq<char>, i: int)
    ensures
        negation_run(s, i) <= s.len(),
        0 <= i <= s.len() ==> negation_run(s, i) <= s.len() - i,
    decreases s.len() - i,
{
    if 0 <= i < s.len() && is_negation(s, i) && i < next_word(s, i + 3) <= s.len() {
        lemma_run_fits(s, next_word(s, i + 3));
    }
}

proof fn lemma_some_run(s: Seq<char>)
    ensures
        exists|n: int| runs_within(s, n),
{
    assert forall|i: int| 0 <= i < s.len() implies #[trigger] negation_run(s, i) <= s.len() by {
        lemma_run_fits(s, i);
    }
    assert(runs_within(s, s.len() as int));
}

} // verus!
