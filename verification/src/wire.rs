//! Framing of the create-subscription request body: the JSON document the
//! client sends to the remote service, built and escaped here so that its
//! exact text is pinned down by the contracts.

use vstd::prelude::*;

verus! {

/// The hexadecimal digit character for a value below 16.
pub open spec fn hex_digit(n: int) -> char {
    if n == 0 {
        '0'
    } else if n == 1 {
        '1'
    } else if n == 2 {
        '2'
    } else if n == 3 {
        '3'
    } else if n == 4 {
        '4'
    } else if n == 5 {
        '5'
    } else if n == 6 {
        '6'
    } else if n == 7 {
        '7'
    } else if n == 8 {
        '8'
    } else if n == 9 {
        '9'
    } else if n == 10 {
        'a'
    } else if n == 11 {
        'b'
    } else if n == 12 {
        'c'
    } else if n == 13 {
        'd'
    } else if n == 14 {
        'e'
    } else {
        'f'
    }
}

/// What one character contributes to a JSON string literal: quote and
/// backslash are escaped, control characters take the `\u00XX` form, and
/// every other character stands as itself.
pub open spec fn json_escaped_char(c: char) -> Seq<char> {
    if c == '"' {
        seq!['\\', '"']
    } else if c == '\\' {
        seq!['\\', '\\']
    } else if (c as int) < 0x20 {
        seq!['\\', 'u', '0', '0', hex_digit((c as int) / 16), hex_digit((c as int) % 16)]
    } else {
        seq![c]
    }
}

/// A character sequence as it appears inside a JSON string literal.
pub open spec fn json_escaped(s: Seq<char>) -> Seq<char>
    decreases s.len(),
{
    if s.len() == 0 {
        Seq::empty()
    } else {
        json_escaped(s.drop_last()) + json_escaped_char(s.last())
    }
}

/// The JSON body of a create-subscription request: the event type under
/// `"type"`, the fixed protocol version `"1"`, the condition verbatim (it
/// is already JSON text), and a websocket transport bound to the session
/// id.
pub open spec fn subscribe_body(event: Seq<char>, session_id: Seq<char>, condition: Seq<char>) -> Seq<
    char,
> {
    ("{\"type\":\"")@ + json_escaped(event) + ("\",\"version\":\"1\",\"condition\":")@ + condition
        + (",\"transport\":{\"method\":\"websocket\",\"session_id\":\"")@ + json_escaped(session_id)
        + ("\"}}")@
}

fn hex_digit_char(n: u32) -> (c: char)
    requires
        n < 16,
    ensures
        c == hex_digit(n as int),
{
    match n {
        0 => '0',
        1 => '1',
        2 => '2',
        3 => '3',
        4 => '4',
        5 => '5',
        6 => '6',
        7 => '7',
        8 => '8',
        9 => '9',
        10 => 'a',
        11 => 'b',
        12 => 'c',
        13 => 'd',
        14 => 'e',
        _ => 'f',
    }
}

/// Append the characters of `s` to `out` unchanged.
fn push_chars(out: &mut Vec<char>, s: &str)
    ensures
        final(out)@ == old(out)@ + s@,
{
    let n = s.unicode_len();
    let mut i: usize = 0;
    while i < n
        invariant
            n == s@.len(),
            i <= n,
            out@ == old(out)@ + s@.subrange(0, i as int),
        decreases n - i,
    {
        let c = s.get_char(i);
        out.push(c);
        proof {
            assert(s@.subrange(0, i + 1 as int) =~= s@.subrange(0, i as int).push(s@[i as int]));
        }
        i += 1;
    }
    proof {
        assert(s@.subrange(0, n as int) =~= s@);
    }
}

/// Append the characters of `s` to `out`, escaped as a JSON string
/// literal's contents.
fn push_escaped(out: &mut Vec<char>, s: &str)
    ensures
        final(out)@ == old(out)@ + json_escaped(s@),
{
    let n = s.unicode_len();
    let mut i: usize = 0;
    while i < n
        invariant
            n == s@.len(),
            i <= n,
            out@ == old(out)@ + json_escaped(s@.subrange(0, i as int)),
        decreases n - i,
    {
        let c = s.get_char(i);
        if c == '"' {
            out.push('\\');
            out.push('"');
        } else if c == '\\' {
            out.push('\\');
            out.push('\\');
        } else if (c as u32) < 0x20 {
            out.push('\\');
            out.push('u');
            out.push('0');
            out.push('0');
            out.push(hex_digit_char((c as u32) / 16));
            out.push(hex_digit_char((c as u32) % 16));
        } else {
            out.push(c);
        }
        proof {
            let p = s@.subrange(0, i as int);
            let p2 = s@.subrange(0, i + 1 as int);
            assert(p2.drop_last() =~= p);
            assert(p2.last() == c);
            assert(out@ =~= old(out)@ + json_escaped(p2));
        }
        i += 1;
    }
    proof {
        assert(s@.subrange(0, n as int) =~= s@);
    }
}

/// Relies on `String`'s `FromIterator<char>` implementation: collecting
/// characters yields the string of exactly those characters, in order.
#[verifier::external_body]
fn string_from_chars(v: &Vec<char>) -> (r: String)
    ensures
        r@ == v@,
{
    v.iter().collect()
}

/// The endpoint both the create and the delete request are sent to.
pub fn subscriptions_url() -> (r: &'static str)
    ensures
        r@ == ("https://api.twitch.tv/helix/eventsub/subscriptions")@,
{
    "https://api.twitch.tv/helix/eventsub/subscriptions"
}

/// Build the create-subscription request body for one event type.
/// `condition_json` is the event filter, already serialized as JSON text;
/// it is embedded verbatim, while the event type and the session id are
/// escaped as JSON string literals.
pub fn subscribe_request_body(event: &str, session_id: &str, condition_json: &str) -> (r: String)
    requires
        event@.len() > 0,
        session_id@.len() > 0,
    ensures
        r@ == subscribe_body(event@, session_id@, condition_json@),
{
    let mut out: Vec<char> = Vec::new();
    push_chars(&mut out, "{\"type\":\"");
    push_escaped(&mut out, event);
    push_chars(&mut out, "\",\"version\":\"1\",\"condition\":");
    push_chars(&mut out, condition_json);
    push_chars(&mut out, ",\"transport\":{\"method\":\"websocket\",\"session_id\":\"");
    push_escaped(&mut out, session_id);
    push_chars(&mut out, "\"}}");
    proof {
        assert(out@ =~= subscribe_body(event@, session_id@, condition_json@));
    }
    string_from_chars(&out)
}

} // verus!
