//! The message-envelope protocol: the frame type pushed to outbound
//! channels, the envelope that carries one routed line, and the rule that
//! tells a direct message (a line starting with the `\w` directive) from a
//! room broadcast.

use vstd::prelude::*;

verus! {

/// One text frame as pushed to a connection's outbound channel.
#[derive(Clone, Debug)]
pub struct WsMessage(pub String);

impl View for WsMessage {
    type V = Seq<char>;

    open spec fn view(&self) -> Seq<char> {
        self.0@
    }
}

/// One routable unit of text: the sending connection, the room the sender
/// sits in, and the raw line. A line whose first two characters are the
/// directive `\w` is a direct message addressed by the token after the first
/// space; any other line is a broadcast to `room_id`.
#[derive(Clone, Debug)]
pub struct Envelope {
    pub id: u128,
    pub msg: String,
    pub room_id: u128,
}

/// A line is direct-addressed when it begins with the two-character
/// directive `\w`.
pub open spec fn is_direct(text: Seq<char>) -> bool {
    text.len() >= 2 && text[0] == '\\' && text[1] == 'w'
}

/// Index of the first space at or after `i`, or `text.len()` if none.
pub open spec fn next_space(text: Seq<char>, i: int) -> int
    decreases text.len() - i,
{
    if i < 0 || i >= text.len() {
        text.len() as int
    } else if text[i] == ' ' {
        i
    } else {
        next_space(text, i + 1)
    }
}

/// The target-identifier token of a direct line: the characters between the
/// first space and the following space (or the end of the line). `None` when
/// the line has no space at all.
pub open spec fn direct_target(text: Seq<char>) -> Option<Seq<char>> {
    let sp1 = next_space(text, 0);
    if sp1 == text.len() {
        None
    } else {
        Some(text.subrange(sp1 + 1, next_space(text, sp1 + 1)))
    }
}

/// What `uuid::Uuid::parse_str` makes of a token: the 128-bit connection
/// identity, or `None` when the token is not a well-formed UUID. The parse
/// is a function of the token alone.
pub uninterp spec fn uuid_of(s: Seq<char>) -> Option<u128>;

/// The connection a direct line is addressed to, if its token parses.
pub open spec fn direct_target_id(text: Seq<char>) -> Option<u128> {
    match direct_target(text) {
        Some(tok) => uuid_of(tok),
        None => None,
    }
}

/// Relies on `uuid::Uuid::parse_str` and `uuid::Uuid::as_u128`: parses a
/// hexadecimal UUID token into its 128-bit value; the result depends on the
/// token alone.
#[verifier::external_body]
fn parse_uuid(s: &str) -> (r: Option<u128>)
    ensures
        r == uuid_of(s@),
{
    match uuid::Uuid::parse_str(s) {
        Ok(u) => Some(u.as_u128()),
        Err(_) => None,
    }
}

proof fn lemma_next_space_found(text: Seq<char>, from: int, i: int)
    requires
        0 <= from <= i <= text.len(),
        forall|k: int| from <= k < i ==> text[k] != ' ',
        i == text.len() || text[i] == ' ',
    ensures
        next_space(text, from) == i,
    decreases i - from,
{
    if from < i {
        lemma_next_space_found(text, from + 1, i);
    }
}

/// First space of `s` at or after `from`, or the character length of `s`.
fn find_space(s: &str, from: usize) -> (r: usize)
    requires
        from <= s@.len(),
    ensures
        r == next_space(s@, from as int),
        from <= r <= s@.len(),
{
    let n = s.unicode_len();
    let mut i = from;
    while i < n
        invariant
            from <= i <= n,
            n == s@.len(),
            forall|k: int| from <= k < i ==> s@[k] != ' ',
        decreases n - i,
    {
        if s.get_char(i) == ' ' {
            proof {
                lemma_next_space_found(s@, from as int, i as int);
            }
            return i;
        }
        i += 1;
    }
    proof {
        lemma_next_space_found(s@, from as int, n as int);
    }
    n
}

/// Whether the line carries the `\w` direct-message directive.
pub fn is_direct_line(s: &str) -> (r: bool)
    ensures
        r == is_direct(s@),
{
    if s.unicode_len() < 2 {
        return false;
    }
    s.get_char(0) == '\\' && s.get_char(1) == 'w'
}

/// The target token of a direct line, as [`direct_target`] defines it.
pub fn direct_target_token(s: &str) -> (r: Option<String>)
    ensures
        r is Some <==> direct_target(s@) is Some,
        r is Some ==> r->0@ == direct_target(s@)->0,
{
    let sp1 = find_space(s, 0);
    if sp1 == s.unicode_len() {
        return None;
    }
    let start = sp1 + 1;
    let sp2 = find_space(s, start);
    let tok = s.substring_char(start, sp2);
    Some(tok.to_owned())
}

/// The connection a direct line is addressed to: the token after the first
/// space, parsed as a UUID. `None` when there is no token or it fails to
/// parse.
pub fn direct_target_conn(s: &str) -> (r: Option<u128>)
    ensures
        r == direct_target_id(s@),
{
    match direct_target_token(s) {
        Some(tok) => parse_uuid(tok.as_str()),
        None => None,
    }
}

} // verus!
