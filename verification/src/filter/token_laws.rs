//! How the tokens of filter text are written.
use crate::filter::token::{
    TokenV, continues_ident, ident_end, law_quoted_literal_reads_back, literal_rank, literal_text,
    number_end, quoted_literal, tokens, tokens_from,
};
use crate::text::{is_ascii_letter, is_digit};
use vstd::prelude::*;

verus! {

/// Whether a text is a number: digits with at most one point among them, and maybe a
/// minus before them.
pub open spec fn is_number_text(text: Seq<char>) -> bool {
    let k: int = if text.len() > 0 && text[0] == '-' {
        1
    } else {
        0
    };
    &&& text.len() > k
    &&& is_digit(text[k])
    &&& forall|i: int| k <= i < text.len() ==> is_digit(#[trigger] text[i]) || text[i] == '.'
    &&& forall|i: int, j: int|
        k <= i < text.len() && k <= j < text.len() && #[trigger] text[i] == '.'
            && #[trigger] text[j] == '.' ==> i == j
}

/// Whether a text is a name: letters, digits, `_` and `/`, a letter or `_` first.
pub open spec fn is_name_text(text: Seq<char>) -> bool {
    &&& text.len() > 0
    &&& is_ascii_letter(text[0]) || text[0] == '_'
    &&& forall|i: int|
        0 <= i < text.len() ==> is_ascii_letter(#[trigger] text[i]) || is_digit(text[i]) || text[i]
            == '_' || text[i] == '/'
}

/// Whether a text writes a token.
pub open spec fn spells(text: Seq<char>, token: TokenV) -> bool {
    match token {
        TokenV::Ident(name) => text == name && is_name_text(name),
        TokenV::String(s) => text == quoted_literal(s),
        TokenV::Number(rank) => is_number_text(text) && literal_rank(text) == Some(rank),
        TokenV::LParen => text == seq!['('],
        TokenV::RParen => text == seq![')'],
        TokenV::Dot => text == seq!['.'],
        TokenV::Comma => text == seq![','],
        TokenV::Colon => text == seq![':'],
    }
}

/// Whether a token ends where a character follows.
pub open spec fn ends_token(c: char, token: TokenV) -> bool {
    match token {
        TokenV::Ident(_) => !(is_ascii_letter(c) || is_digit(c) || c == '_' || c == '/'),
        TokenV::Number(_) => !(is_digit(c) || c == '.' || c == 'e' || c == 'E'),
        TokenV::String(_) => c != '\'',
        _ => true,
    }
}

proof fn lemma_name_end(s: Seq<char>, i: int, e: int)
    requires
        0 <= i <= e <= s.len(),
        forall|k: int| i <= k < e ==> continues_ident(#[trigger] s[k]),
        e < s.len() ==> !continues_ident(s[e]),
    ensures
        ident_end(s, i) == e,
    decreases e - i,
{
    if i < e {
        lemma_name_end(s, i + 1, e);
    }
}

proof fn lemma_number_end(s: Seq<char>, i: int, e: int, has_point: bool)
    requires
        0 <= i <= e <= s.len(),
        forall|k: int| i <= k < e ==> is_digit(#[trigger] s[k]) || s[k] == '.',
        forall|j: int, k: int|
            i <= j < e && i <= k < e && #[trigger] s[j] == '.' && #[trigger] s[k] == '.' ==> j == k,
        has_point ==> forall|k: int| i <= k < e ==> #[trigger] s[k] != '.',
        e < s.len() ==> ends_token(s[e], TokenV::Number(0)),
    ensures
        number_end(s, i, has_point) == e,
    decreases e - i,
{
    if i < e {
        if s[i] == '.' {
            assert(!is_digit(s[i]));
            lemma_number_end(s, i + 1, e, true);
        } else {
            assert(is_digit(s[i]));
            lemma_number_end(s, i + 1, e, has_point);
        }
    }
}

proof fn lemma_name_is_read(s: Seq<char>, p: int, text: Seq<char>, done: Seq<TokenV>)
    requires
        0 <= p,
        p + text.len() <= s.len(),
        s.subrange(p, p + text.len()) == text,
        is_name_text(text),
        p + text.len() < s.len() ==> ends_token(s[p + text.len()], TokenV::Ident(text)),
    ensures
        tokens_from(s, p, done) == tokens_from(s, p + text.len(), done.push(TokenV::Ident(text))),
{
    assert forall|k: int| p <= k < p + text.len() implies continues_ident(#[trigger] s[k]) by {
        assert(text[k - p] == s[k]);
    }
    assert(s[p] == text[0]);
    lemma_name_end(s, p + 1, p + text.len());
}

proof fn lemma_number_is_read(
    s: Seq<char>,
    p: int,
    text: Seq<char>,
    rank: u64,
    done: Seq<TokenV>,
)
    requires
        0 <= p,
        p + text.len() <= s.len(),
        s.subrange(p, p + text.len()) == text,
        is_number_text(text),
        literal_rank(text) == Some(rank),
        p + text.len() < s.len() ==> ends_token(s[p + text.len()], TokenV::Number(rank)),
    ensures
        tokens_from(s, p, done) == tokens_from(s, p + text.len(), done.push(TokenV::Number(rank))),
{
    let e = p + text.len();
    assert(s[p] == text[0]);
    assert forall|k: int| p + 1 <= k < e implies is_digit(#[trigger] s[k]) || s[k] == '.' by {
        assert(text[k - p] == s[k]);
    }
    assert forall|j: int, k: int|
        p + 1 <= j < e && p + 1 <= k < e && #[trigger] s[j] == '.' && #[trigger] s[k]
            == '.' implies j == k by {
        assert(text[j - p] == s[j] && text[k - p] == s[k]);
    }
    if text[0] == '-' {
        assert(s[p + 1] == text[1]);
    }
    lemma_number_end(s, p + 1, e, false);
}

/// A token that is written at a place is read there, whatever stands before it and
/// behind it, as long as it ends there.
pub proof fn law_token_is_read(
    s: Seq<char>,
    p: int,
    text: Seq<char>,
    token: TokenV,
    done: Seq<TokenV>,
)
    requires
        0 <= p,
        p + text.len() <= s.len(),
        s.subrange(p, p + text.len()) == text,
        spells(text, token),
        p + text.len() < s.len() ==> ends_token(s[p + text.len()], token),
    ensures
        tokens_from(s, p, done) == tokens_from(s, p + text.len(), done.push(token)),
        text.len() > 0,
{
    match token {
        TokenV::Ident(name) => lemma_name_is_read(s, p, text, done),
        TokenV::Number(rank) => lemma_number_is_read(s, p, text, rank, done),
        TokenV::String(x) => {
            let before = s.take(p);
            let after = s.skip(p + text.len());
            assert(s =~= before + quoted_literal(x) + after) by {
                let r = before + quoted_literal(x) + after;
                assert forall|i: int| 0 <= i < s.len() implies s[i] == r[i] by {
                    if p <= i < p + text.len() {
                        assert(s.subrange(p, p + text.len())[i - p] == text[i - p]);
                    }
                }
            }
            law_quoted_literal_reads_back(x, before, after, done);
        },
        _ => {
            assert(s.subrange(p, p + text.len())[0] == text[0]);
        },
    }
}

/// Blanks before a token are passed over, and a text ends with its last token.
pub proof fn law_blank_is_passed_over(s: Seq<char>, p: int, done: Seq<TokenV>)
    ensures
        0 <= p < s.len() && (s[p] == ' ' || s[p] == '\t' || s[p] == '\r' || s[p] == '\n')
            ==> tokens_from(s, p, done) == tokens_from(s, p + 1, done),
        p >= s.len() ==> tokens_from(s, p, done) == Ok::<Seq<TokenV>, Seq<char>>(done),
        0 <= p < s.len() && (s[p] == '#' || s[p] == '"' || s[p] == '=' || s[p] == '&' || s[p] == '<'
            || s[p] == '>' || s[p] == '*' || s[p] as u32 > 126) ==> tokens_from(s, p, done) is Err,
{
}

/// Texts of tokens, with a blank behind each.
pub open spec fn spaced(parts: Seq<Seq<char>>) -> Seq<char>
    decreases parts.len(),
{
    if parts.len() == 0 {
        seq![]
    } else {
        spaced(parts.drop_last()) + parts.last() + seq![' ']
    }
}

proof fn lemma_spaced_reads_back(
    s: Seq<char>,
    parts: Seq<Seq<char>>,
    list: Seq<TokenV>,
    after: Seq<char>,
)
    requires
        parts.len() == list.len(),
        forall|i: int| 0 <= i < parts.len() ==> spells(#[trigger] parts[i], list[i]),
        s == spaced(parts) + after,
    ensures
        tokens_from(s, 0, seq![]) == tokens_from(s, spaced(parts).len() as int, list),
    decreases parts.len(),
{
    if parts.len() == 0 {
        assert(list =~= seq![]);
    } else {
        let n = parts.len() - 1;
        let head = spaced(parts.drop_last());
        let text = parts.last();
        let p = head.len() as int;
        assert(s =~= head + (text + seq![' '] + after));
        assert forall|i: int| 0 <= i < n implies spells(
            #[trigger] parts.drop_last()[i],
            list.drop_last()[i],
        ) by {
            assert(parts.drop_last()[i] == parts[i]);
        }
        lemma_spaced_reads_back(s, parts.drop_last(), list.drop_last(), text + seq![' '] + after);
        assert(spells(parts[n], list[n]));
        assert(s.subrange(p, p + text.len()) =~= text);
        assert(s[p + text.len()] == ' ');
        law_token_is_read(s, p, text, list.last(), list.drop_last());
        assert(list.drop_last().push(list.last()) =~= list);
    }
}

/// Texts of tokens with blanks between them read back as the tokens: all of them, in
/// order.
pub proof fn law_spaced_tokens_read_back(parts: Seq<Seq<char>>, list: Seq<TokenV>)
    requires
        parts.len() == list.len(),
        forall|i: int| 0 <= i < parts.len() ==> spells(#[trigger] parts[i], list[i]),
    ensures
        tokens(spaced(parts)) == Ok::<Seq<TokenV>, Seq<char>>(list),
{
    let s = spaced(parts);
    assert(s + seq![] =~= s);
    lemma_spaced_reads_back(s, parts, list, seq![]);
}

/// A literal without a closing quote is refused.
pub proof fn law_open_literal_is_refused(s: Seq<char>, p: int, done: Seq<TokenV>)
    requires
        0 <= p < s.len(),
        s[p] == '\'',
        forall|i: int| p < i < s.len() ==> #[trigger] s[i] != '\'',
    ensures
        tokens_from(s, p, done) is Err,
{
    lemma_open_literal(s, p + 1, seq![]);
}

proof fn lemma_open_literal(s: Seq<char>, i: int, text: Seq<char>)
    requires
        0 <= i,
        forall|k: int| i <= k < s.len() ==> #[trigger] s[k] != '\'',
    ensures
        literal_text(s, i, text) is None,
    decreases s.len() - i,
{
    if i < s.len() {
        lemma_open_literal(s, i + 1, text.push(s[i]));
    }
}

} // verus!
