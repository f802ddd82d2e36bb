//! The health check: the port that is asked, and what the answer says.
use crate::config::DEFAULT_PORT;
use crate::json::{Json, JsonV};
use crate::query::analyzers::opt_str;
use crate::semantic::config::{member_of, value_member};
use crate::text::{
    chars_of, parse_unsigned, part_at, pieces, same_text, split_on, split_words, stands_at,
    text_between, texts, unsigned_value, words,
};
use vstd::prelude::*;

verus! {

/// The port that a health check asks: the configured one, or the default where
/// none or no valid one is configured.
pub open spec fn checked_port(raw: Option<Seq<char>>) -> u16 {
    match raw {
        Some(text) => match unsigned_value(text, u16::MAX as nat) {
            Some(n) => n as u16,
            None => DEFAULT_PORT,
        },
        None => DEFAULT_PORT,
    }
}

/// The port that a health check asks, by the `EMULATOR_PORT` variable.
pub fn healthcheck_port(raw: Option<&str>) -> (r: u16)
    ensures
        r == checked_port(opt_str(raw)),
{
    match raw {
        Some(text) => match parse_unsigned(text, u16::MAX as u64) {
            Some(n) => n as u16,
            None => DEFAULT_PORT,
        },
        None => DEFAULT_PORT,
    }
}

/// The first place from `i` on where `part` stands in `s`; behind its end where
/// it stands nowhere.
pub open spec fn part_from(s: Seq<char>, part: Seq<char>, i: int) -> int
    decreases s.len() - i,
{
    if i >= s.len() || stands_at(s, part, i) {
        i
    } else {
        part_from(s, part, i + 1)
    }
}

/// What separates the head of an HTTP message from its body.
pub const BLANK_LINE: &'static str = "\r\n\r\n";

/// The status code and the body of an HTTP response.
#[derive(Debug, PartialEq, Eq)]
pub struct HealthReply {
    pub status_code: String,
    pub body: String,
}

/// The mathematical value of a [`HealthReply`].
pub struct HealthReplyV {
    pub status_code: Seq<char>,
    pub body: Seq<char>,
}

impl View for HealthReply {
    type V = HealthReplyV;

    open spec fn view(&self) -> HealthReplyV {
        HealthReplyV { status_code: self.status_code@, body: self.body@ }
    }
}

/// The second word of the first line of a text; the empty text where there is
/// none.
pub open spec fn second_word(s: Seq<char>) -> Seq<char> {
    let list = words(pieces(s, '\n')[0]);
    if list.len() > 1 {
        list[1]
    } else {
        seq![]
    }
}

/// A text up to where a part stands first.
pub open spec fn before_part(s: Seq<char>, part: Seq<char>) -> Seq<char> {
    s.take(part_from(s, part, 0))
}

/// A text behind where a part stands first; the empty text where it stands
/// nowhere.
pub open spec fn behind_part(s: Seq<char>, part: Seq<char>) -> Seq<char> {
    let i = part_from(s, part, 0);
    if i < s.len() {
        s.skip(i + part.len())
    } else {
        seq![]
    }
}

/// What an HTTP response says: the second word of its first line is the status
/// code, and what stands between its first two blank lines is its body.
pub open spec fn reply_of(text: Seq<char>, blank: Seq<char>) -> HealthReplyV {
    HealthReplyV {
        status_code: second_word(before_part(text, blank)),
        body: before_part(behind_part(text, blank), blank),
    }
}

fn find_part(s: &Vec<char>, part: &Vec<char>) -> (r: usize)
    ensures
        r == part_from(s@, part@, 0),
        r <= s@.len(),
        r < s@.len() ==> stands_at(s@, part@, r as int),
{
    let mut i: usize = 0;
    while i < s.len() && !part_at(s, part, i)
        invariant
            i <= s@.len(),
            part_from(s@, part@, 0) == part_from(s@, part@, i as int),
        decreases s@.len() - i,
    {
        i += 1;
    }
    i
}

/// Reads an HTTP response.
pub fn read_health_reply(text: &str) -> (r: HealthReply)
    ensures
        r@ == reply_of(text@, BLANK_LINE@),
{
    let s = chars_of(text);
    let blank = chars_of(BLANK_LINE);
    let i = find_part(&s, &blank);
    let head = text_between(&s, 0, i);
    assert(head@ =~= before_part(text@, BLANK_LINE@));
    let rest = if i < s.len() {
        text_between(&s, i + blank.len(), s.len())
    } else {
        String::new()
    };
    assert(rest@ =~= behind_part(text@, BLANK_LINE@));
    let t = chars_of(rest.as_str());
    let j = find_part(&t, &blank);
    let body = text_between(&t, 0, j);
    assert(body@ =~= before_part(rest@, BLANK_LINE@));
    let lines = split_on(head.as_str(), '\n');
    assert(texts(lines@)[0] == lines@[0]@);
    let list = split_words(lines[0].as_str());
    let status_code = if list.len() > 1 {
        assert(texts(list@)[1] == list@[1]@);
        list[1].clone()
    } else {
        String::new()
    };
    assert(status_code@ =~= second_word(head@));
    HealthReply { status_code, body }
}

/// Whether an answer says that the service is up.
pub open spec fn says_healthy(status_code: Seq<char>, body: JsonV) -> bool {
    status_code == "200"@ && member_of(body, "status"@) == Some(JsonV::String("ok"@))
}

/// Whether an answer says that the service is up: its status code is 200, and
/// its body is an object whose `status` is `ok`.
pub fn is_healthy(status_code: &str, body: &Json) -> (r: bool)
    ensures
        r == says_healthy(status_code@, body@),
{
    if !same_text(status_code, "200") {
        return false;
    }
    match value_member(body, "status") {
        Some(Json::String(s)) => same_text(s.as_str(), "ok"),
        _ => false,
    }
}

} // verus!
