//! Caption text.
use crate::text::{
    chars_of, is_space, last_word_end, space, text_between, trim, trim_end, trimmed, trimmed_end,
};
use vstd::prelude::*;

verus! {

/// The maximum character length of a caption before truncation.
pub const CAPTION_MAX_LENGTH: usize = 200;

/// The last whitespace before place `n`, or -1.
pub open spec fn last_space(s: Seq<char>, n: int) -> int
    decreases n,
{
    if n <= 0 {
        -1
    } else if is_space(s[n - 1]) {
        n - 1
    } else {
        last_space(s, n - 1)
    }
}

/// A text of at most `max` characters: the trimmed text where it fits,
/// otherwise its start, cut at a word boundary where there is one, and dots; as
/// many dots as are allowed where that is all that fits.
pub open spec fn truncated(text: Seq<char>, max: nat) -> Seq<char> {
    let s = trim(text);
    if s.len() <= max {
        s
    } else if max < 3 {
        "..."@.take(max as int)
    } else {
        let keep = max - 3;
        let at = last_space(s, keep);
        let cut = if at >= 0 {
            at
        } else {
            keep
        };
        trim_end(s.take(cut)) + "..."@
    }
}

/// Truncates text to at most `max_len` characters: when the text fits it is
/// returned unchanged, otherwise it is cut at the last word boundary before
/// `max_len - suffix` characters and the suffix is appended (hard-split when
/// there is no word boundary). The result never exceeds `max_len` characters.
pub fn truncate(text: &str, max_len: usize) -> (r: String)
    ensures
        r@ == truncated(text@, max_len as nat),
{
    let t = trimmed(text);
    let s = chars_of(t.as_str());
    if s.len() <= max_len {
        return t;
    }
    if max_len < 3 {
        proof {
            reveal_strlit("...");
        }
        let dots = text_between(&chars_of("..."), 0, max_len);
        assert(dots@ =~= "..."@.take(max_len as int));
        return dots;
    }
    let keep: usize = max_len - 3;
    let mut n: usize = keep;
    while n > 0 && !space(s[n - 1])
        invariant
            n <= keep <= s@.len(),
            last_space(s@, keep as int) == last_space(s@, n as int),
        decreases n,
    {
        n -= 1;
    }
    let cut: usize = if n > 0 {
        n - 1
    } else {
        keep
    };
    let head = text_between(&s, 0, cut);
    assert(head@ =~= s@.take(cut as int));
    let mut out = trimmed_end(head.as_str());
    out.append("...");
    out
}

proof fn lemma_last_space(s: Seq<char>, n: int)
    requires
        0 <= n <= s.len(),
    ensures
        -1 <= last_space(s, n) < n || n == 0 && last_space(s, n) == -1,
    decreases n,
{
    if n > 0 {
        lemma_last_space(s, n - 1);
    }
}

proof fn lemma_end_bounds(s: Seq<char>, n: int)
    requires
        0 <= n <= s.len(),
    ensures
        0 <= last_word_end(s, n) <= n,
    decreases n,
{
    if n > 0 {
        lemma_end_bounds(s, n - 1);
    }
}

/// A truncated text never has more characters than allowed.
pub proof fn law_truncated_fits(text: Seq<char>, max: nat)
    ensures
        truncated(text, max).len() <= max,
{
    let s = trim(text);
    reveal_strlit("...");
    assert("..."@.len() == 3);
    if s.len() > max && max >= 3 {
        let keep = max - 3;
        lemma_last_space(s, keep);
        let at = last_space(s, keep);
        let cut = if at >= 0 {
            at
        } else {
            keep
        };
        lemma_end_bounds(s.take(cut), cut);
    }
}

/// A text that fits is only trimmed.
pub proof fn law_short_text_is_kept(text: Seq<char>, max: nat)
    requires
        trim(text).len() <= max,
    ensures
        truncated(text, max) == trim(text),
{
}

} // verus!
