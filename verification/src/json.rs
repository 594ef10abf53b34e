//! Canonical JSON text of the history and of the request body.
//!
//! The history file is an array of `{"role": ..., "content": ...}` objects;
//! the request body wraps the same array together with the model name. Both
//! are framed here, character by character, with the exact text pinned by
//! the spec functions below.

use vstd::prelude::*;
use crate::models::Message;
use crate::models::MessageView;
use crate::models::LlmRequest;
use crate::models::model_id;
use crate::models::msgs_view;
use crate::text::string_from_chars;
use crate::text::chars_of;

verus! {

/// The hexadecimal digit character for a value below sixteen.
pub open spec fn hex_digit(n: u32) -> char {
    if n == 0 {
        '0'
    } else if n == 1 {
        '1'
    } else if n == 2 {
        '2'
    } else if n == 3 {
        '3'
    } else if n == 4 {
        '4'
    } else if n == 5 {
        '5'
    } else if n == 6 {
        '6'
    } else if n == 7 {
        '7'
    } else if n == 8 {
        '8'
    } else if n == 9 {
        '9'
    } else if n == 10 {
        'a'
    } else if n == 11 {
        'b'
    } else if n == 12 {
        'c'
    } else if n == 13 {
        'd'
    } else if n == 14 {
        'e'
    } else {
        'f'
    }
}

/// How one character is written inside a JSON string: quote, backslash and
/// the named control characters get a two-character escape, the remaining
/// control characters a `\u00XX` escape, everything else stands as itself.
pub open spec fn esc_char(c: char) -> Seq<char> {
    if c == '"' {
        seq!['\\', '"']
    } else if c == '\\' {
        seq!['\\', '\\']
    } else if c == '\n' {
        seq!['\\', 'n']
    } else if c == '\r' {
        seq!['\\', 'r']
    } else if c == '\t' {
        seq!['\\', 't']
    } else if c as u32 == 8 {
        seq!['\\', 'b']
    } else if c as u32 == 12 {
        seq!['\\', 'f']
    } else if (c as u32) < 32 {
        seq!['\\', 'u', '0', '0', hex_digit((c as u32) / 16), hex_digit((c as u32) % 16)]
    } else {
        seq![c]
    }
}

/// A whole character sequence escaped.
pub open spec fn esc_str(s: Seq<char>) -> Seq<char>
    decreases s.len(),
{
    if s.len() == 0 {
        Seq::empty()
    } else {
        esc_char(s[0]) + esc_str(s.drop_first())
    }
}

/// A JSON string literal: the escaped text between double quotes.
pub open spec fn quoted(s: Seq<char>) -> Seq<char> {
    seq!['"'] + esc_str(s) + seq!['"']
}

/// The key under which a message's role is stored.
pub open spec fn role_key() -> Seq<char> {
    seq!['r', 'o', 'l', 'e']
}

/// The key under which a message's content is stored.
pub open spec fn content_key() -> Seq<char> {
    seq!['c', 'o', 'n', 't', 'e', 'n', 't']
}

/// The JSON object text of one message.
pub open spec fn msg_text(m: MessageView) -> Seq<char> {
    seq!['{'] + quoted(role_key()) + seq![':'] + quoted(m.role) + seq![','] + quoted(content_key())
        + seq![':'] + quoted(m.content) + seq!['}']
}

/// The comma-separated message objects, without the surrounding brackets.
pub open spec fn msgs_text(ms: Seq<MessageView>) -> Seq<char>
    decreases ms.len(),
{
    if ms.len() == 0 {
        Seq::empty()
    } else if ms.len() == 1 {
        msg_text(ms[0])
    } else {
        msg_text(ms[0]) + seq![','] + msgs_text(ms.drop_first())
    }
}

/// The persisted history file: a JSON array of message objects.
pub open spec fn hist_text(ms: Seq<MessageView>) -> Seq<char> {
    seq!['['] + msgs_text(ms) + seq![']']
}

/// The request body: the model name and the full message history.
pub open spec fn request_text(ms: Seq<MessageView>) -> Seq<char> {
    seq!['{'] + quoted(seq!['m', 'o', 'd', 'e', 'l']) + seq![':'] + quoted(model_id()) + seq![',']
        + quoted(seq!['m', 'e', 's', 's', 'a', 'g', 'e', 's']) + seq![':'] + hist_text(ms)
        + seq!['}']
}

/// Escaping distributes over extension at the back.
pub proof fn lemma_esc_push(s: Seq<char>, c: char)
    ensures
        esc_str(s.push(c)) == esc_str(s) + esc_char(c),
    decreases s.len(),
{
    if s.len() == 0 {
        assert(s.push(c).drop_first() =~= Seq::<char>::empty());
        assert(s.push(c)[0] == c);
        assert(esc_str(s.push(c)) == esc_char(c) + esc_str(Seq::<char>::empty()));
        assert(esc_str(Seq::<char>::empty()) == Seq::<char>::empty());
        assert(esc_str(s) == Seq::<char>::empty());
        assert(esc_char(c) + Seq::<char>::empty() =~= Seq::<char>::empty() + esc_char(c));
    } else {
        assert(s.push(c).drop_first() =~= s.drop_first().push(c));
        lemma_esc_push(s.drop_first(), c);
        assert(esc_str(s.push(c)) =~= esc_str(s) + esc_char(c));
    }
}

/// Joining distributes over extension at the back.
pub proof fn lemma_msgs_text_push(ms: Seq<MessageView>, m: MessageView)
    ensures
        msgs_text(ms.push(m)) == if ms.len() == 0 {
            msg_text(m)
        } else {
            msgs_text(ms) + seq![','] + msg_text(m)
        },
    decreases ms.len(),
{
    if ms.len() == 0 {
        assert(msgs_text(ms.push(m)) =~= msg_text(m));
    } else {
        assert(ms.push(m).drop_first() =~= ms.drop_first().push(m));
        lemma_msgs_text_push(ms.drop_first(), m);
        if ms.len() == 1 {
            assert(ms.drop_first().len() == 0);
            assert(msgs_text(ms.push(m)) =~= msgs_text(ms) + seq![','] + msg_text(m));
        } else {
            assert(msgs_text(ms.push(m)) =~= msgs_text(ms) + seq![','] + msg_text(m));
        }
    }
}

/// The hexadecimal digit character, executably.
fn hex_digit_ch(n: u32) -> (c: char)
    requires
        n < 16,
    ensures
        c == hex_digit(n),
{
    if n == 0 {
        '0'
    } else if n == 1 {
        '1'
    } else if n == 2 {
        '2'
    } else if n == 3 {
        '3'
    } else if n == 4 {
        '4'
    } else if n == 5 {
        '5'
    } else if n == 6 {
        '6'
    } else if n == 7 {
        '7'
    } else if n == 8 {
        '8'
    } else if n == 9 {
        '9'
    } else if n == 10 {
        'a'
    } else if n == 11 {
        'b'
    } else if n == 12 {
        'c'
    } else if n == 13 {
        'd'
    } else if n == 14 {
        'e'
    } else {
        'f'
    }
}

/// Appends one escaped character.
fn push_escaped(out: &mut Vec<char>, c: char)
    ensures
        final(out)@ == old(out)@ + esc_char(c),
{
    if c == '"' {
        out.push('\\');
        out.push('"');
    } else if c == '\\' {
        out.push('\\');
        out.push('\\');
    } else if c == '\n' {
        out.push('\\');
        out.push('n');
    } else if c == '\r' {
        out.push('\\');
        out.push('r');
    } else if c == '\t' {
        out.push('\\');
        out.push('t');
    } else if c as u32 == 8 {
        out.push('\\');
        out.push('b');
    } else if c as u32 == 12 {
        out.push('\\');
        out.push('f');
    } else if (c as u32) < 32 {
        let n = c as u32;
        out.push('\\');
        out.push('u');
        out.push('0');
        out.push('0');
        out.push(hex_digit_ch(n / 16));
        out.push(hex_digit_ch(n % 16));
    } else {
        out.push(c);
    }
    proof {
        assert(final(out)@ =~= old(out)@ + esc_char(c));
    }
}

/// Appends a JSON string literal holding `s`.
fn push_quoted(out: &mut Vec<char>, s: &str)
    ensures
        final(out)@ == old(out)@ + quoted(s@),
{
    let cs = chars_of(s);
    out.push('"');
    let mut i: usize = 0;
    while i < cs.len()
        invariant
            cs@ == s@,
            i <= cs@.len(),
            out@ == old(out)@ + seq!['"'] + esc_str(cs@.take(i as int)),
        decreases cs@.len() - i,
    {
        proof {
            assert(cs@.take(i + 1) =~= cs@.take(i as int).push(cs@[i as int]));
            lemma_esc_push(cs@.take(i as int), cs@[i as int]);
        }
        push_escaped(out, cs[i]);
        proof {
            assert(out@ =~= old(out)@ + seq!['"'] + esc_str(cs@.take(i + 1)));
        }
        i = i + 1;
    }
    out.push('"');
    proof {
        assert(cs@.take(cs@.len() as int) =~= s@);
        assert(out@ =~= old(out)@ + quoted(s@));
    }
}

/// Appends the object text of one message.
fn push_msg(out: &mut Vec<char>, m: &Message)
    ensures
        final(out)@ == old(out)@ + msg_text(m@),
{
    out.push('{');
    push_quoted(out, "role");
    proof {
        reveal_strlit("role");
        assert("role"@ =~= role_key());
    }
    out.push(':');
    push_quoted(out, m.role.as_str());
    out.push(',');
    push_quoted(out, "content");
    proof {
        reveal_strlit("content");
        assert("content"@ =~= content_key());
    }
    out.push(':');
    push_quoted(out, m.content.as_str());
    out.push('}');
    proof {
        assert(final(out)@ =~= old(out)@ + msg_text(m@));
    }
}

/// Appends the array text of the whole history.
fn push_hist(out: &mut Vec<char>, msgs: &Vec<Message>)
    ensures
        final(out)@ == old(out)@ + hist_text(msgs_view(msgs@)),
{
    out.push('[');
    let mut i: usize = 0;
    while i < msgs.len()
        invariant
            i <= msgs@.len(),
            out@ == old(out)@ + seq!['['] + msgs_text(msgs_view(msgs@).take(i as int)),
        decreases msgs@.len() - i,
    {
        if i > 0 {
            out.push(',');
        }
        push_msg(out, &msgs[i]);
        proof {
            let ghost vs = msgs_view(msgs@);
            assert(vs.take(i + 1) =~= vs.take(i as int).push(vs[i as int]));
            lemma_msgs_text_push(vs.take(i as int), vs[i as int]);
            assert(vs[i as int] == msgs@[i as int]@);
            assert(out@ =~= old(out)@ + seq!['['] + msgs_text(vs.take(i + 1)));
        }
        i = i + 1;
    }
    out.push(']');
    proof {
        assert(msgs_view(msgs@).take(msgs@.len() as int) =~= msgs_view(msgs@));
        assert(final(out)@ =~= old(out)@ + hist_text(msgs_view(msgs@)));
    }
}

/// The text written to the history file for this message sequence.
pub fn encode_history(msgs: &Vec<Message>) -> (r: String)
    ensures
        r@ == hist_text(msgs_view(msgs@)),
{
    let mut out: Vec<char> = Vec::new();
    push_hist(&mut out, msgs);
    proof {
        assert(out@ =~= hist_text(msgs_view(msgs@)));
    }
    string_from_chars(&out)
}

/// The body of the HTTP request carrying this request record.
pub fn encode_request(req: &LlmRequest) -> (r: String)
    ensures
        r@ == request_text(msgs_view(req.messages@)),
{
    let mut out: Vec<char> = Vec::new();
    out.push('{');
    push_quoted(&mut out, "model");
    proof {
        reveal_strlit("model");
        assert("model"@ =~= seq!['m', 'o', 'd', 'e', 'l']);
    }
    out.push(':');
    let id = req.model.as_str();
    push_quoted(&mut out, id);
    out.push(',');
    push_quoted(&mut out, "messages");
    proof {
        reveal_strlit("messages");
        assert("messages"@ =~= seq!['m', 'e', 's', 's', 'a', 'g', 'e', 's']);
    }
    out.push(':');
    push_hist(&mut out, &req.messages);
    out.push('}');
    proof {
        assert(out@ =~= request_text(msgs_view(req.messages@)));
    }
    string_from_chars(&out)
}

} // verus!
