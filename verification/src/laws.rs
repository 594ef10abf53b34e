//! Laws of the library, proved once and for all inputs.
//!
//! Round trip of the history store: parsing the text the encoder writes
//! gives back exactly the encoded message sequence, for every message
//! sequence, so loading a file and saving it again reproduces the same
//! ordered sequence of role/content pairs. And the instruction preamble:
//! every one-shot turn's content begins with it, and no conversation
//! turn's content carries it — the builder adds nothing there.

use vstd::prelude::*;
use vstd::arithmetic::div_mod::lemma_fundamental_div_mod;
use crate::models::MessageView;
use crate::json::esc_char;
use crate::json::esc_str;
use crate::json::quoted;
use crate::json::hex_digit;
use crate::json::msg_text;
use crate::json::msgs_text;
use crate::json::hist_text;
use crate::json::role_key;
use crate::json::content_key;
use crate::parse::is_ws;
use crate::parse::sp_trim;
use crate::parse::hex_val;
use crate::parse::esc_decode;
use crate::parse::sp_str_body;
use crate::parse::sp_member;
use crate::parse::sp_msg;
use crate::parse::sp_items;
use crate::parse::sp_hist;
use crate::text::char_of;
use crate::text::lemma_char_of_code;
use crate::session::turn_content;
use crate::session::join_spaces;
use crate::session::preamble;
use crate::session::lemma_preamble_shape;

verus! {

/// Whether `s` begins with `p`.
pub open spec fn begins_with(s: Seq<char>, p: Seq<char>) -> bool {
    s.len() >= p.len() && s.subrange(0, p.len() as int) == p
}

/// One-shot law: the content of a turn built without conversation mode
/// begins with the instruction preamble; with no literal tokens it is
/// exactly the preamble, two line feeds, and the raw input.
pub proof fn lemma_one_shot_preamble(tokens: Seq<Seq<char>>, input: Seq<char>)
    ensures
        begins_with(turn_content(false, tokens, input), preamble()),
        tokens.len() == 0 ==> turn_content(false, tokens, input) == preamble() + seq!['\n']
            + seq!['\n'] + input,
{
    let c = turn_content(false, tokens, input);
    assert(c.subrange(0, preamble().len() as int) =~= preamble());
    if tokens.len() == 0 {
        assert(join_spaces(tokens) == Seq::<char>::empty());
        assert(c =~= preamble() + seq!['\n'] + seq!['\n'] + input);
    }
}

/// Conversation law: the content of a turn built in conversation mode is
/// exactly the literal tokens and the raw input behind their separators —
/// the instruction preamble is not added and the content does not begin
/// with it.
pub proof fn lemma_conversation_no_preamble(tokens: Seq<Seq<char>>, input: Seq<char>)
    ensures
        turn_content(true, tokens, input) == seq!['\n'] + join_spaces(tokens) + seq!['\n']
            + input,
        !begins_with(turn_content(true, tokens, input), preamble()),
{
    let c = turn_content(true, tokens, input);
    assert(c =~= seq!['\n'] + join_spaces(tokens) + seq!['\n'] + input);
    assert(c[0] == '\n');
    lemma_preamble_shape();
    if begins_with(c, preamble()) {
        assert(c.subrange(0, preamble().len() as int)[0] == c[0]);
    }
}

/// Trimming moves nothing when the text starts with a non-blank character.
proof fn lemma_trim_noop(s: Seq<char>)
    requires
        s.len() > 0,
        !is_ws(s[0]),
    ensures
        sp_trim(s) == s,
{
}

/// A hexadecimal digit character reads back as its value.
proof fn lemma_hex_digit_val(k: u32)
    requires
        k < 16,
    ensures
        hex_val(hex_digit(k)) == Some(k),
{
}

/// Two characters with one code point are one character.
proof fn lemma_char_code_eq(a: char, b: char)
    requires
        a as u32 == b as u32,
    ensures
        a == b,
{
    lemma_char_of_code(a);
    lemma_char_of_code(b);
}

/// A two-character escape in front of a parsed tail prepends the character
/// it stands for.
proof fn lemma_step_named(c: char, e: char, s1: Seq<char>, t1: Seq<char>, rest: Seq<char>)
    requires
        e != 'u',
        esc_decode(e) == Some(c),
        sp_str_body(s1) == Some((t1, rest)),
    ensures
        sp_str_body(seq!['\\', e] + s1) == Some((seq![c] + t1, rest)),
{
    let s = seq!['\\', e] + s1;
    assert(s[0] == '\\');
    assert(s[1] == e);
    assert(s.len() >= 2);
    assert(s.skip(2) =~= s1);
}

/// A `\u00XX` escape in front of a parsed tail prepends the control
/// character with that code.
proof fn lemma_step_u(c: char, s1: Seq<char>, t1: Seq<char>, rest: Seq<char>)
    requires
        (c as u32) < 32,
        sp_str_body(s1) == Some((t1, rest)),
    ensures
        sp_str_body(
            seq!['\\', 'u', '0', '0', hex_digit((c as u32) / 16), hex_digit((c as u32) % 16)] + s1,
        ) == Some((seq![c] + t1, rest)),
{
    let n = c as u32;
    let s = seq!['\\', 'u', '0', '0', hex_digit(n / 16), hex_digit(n % 16)] + s1;
    assert(s[0] == '\\');
    assert(s[1] == 'u');
    assert(s[2] == '0');
    assert(s[3] == '0');
    assert(s[4] == hex_digit(n / 16));
    assert(s[5] == hex_digit(n % 16));
    assert(s.len() >= 6);
    assert(s.skip(6) =~= s1);
    assert(hex_val('0') == Some(0u32));
    lemma_hex_digit_val(n / 16);
    lemma_hex_digit_val(n % 16);
    lemma_fundamental_div_mod(n as int, 16);
    let code = ((hex_val(s[2])->0 * 4096 + hex_val(s[3])->0 * 256 + hex_val(s[4])->0 * 16 + hex_val(
        s[5],
    )->0) as u32);
    assert(code == n);
    lemma_char_of_code(c);
    assert(char_of(code) == c);
}

/// A plain character in front of a parsed tail prepends itself.
proof fn lemma_step_raw(c: char, s1: Seq<char>, t1: Seq<char>, rest: Seq<char>)
    requires
        c != '"',
        c != '\\',
        sp_str_body(s1) == Some((t1, rest)),
    ensures
        sp_str_body(seq![c] + s1) == Some((seq![c] + t1, rest)),
{
    let s = seq![c] + s1;
    assert(s[0] == c);
    assert(s.len() >= 1);
    assert(s.drop_first() =~= s1);
}

/// An escaped string body followed by its closing quote parses back to
/// exactly the original characters.
proof fn lemma_str_round(t: Seq<char>, rest: Seq<char>)
    ensures
        sp_str_body(esc_str(t) + seq!['"'] + rest) == Some((t, rest)),
    decreases t.len(),
{
    let s = esc_str(t) + seq!['"'] + rest;
    if t.len() == 0 {
        assert(s =~= seq!['"'] + rest);
        assert(s[0] == '"');
        assert(s.drop_first() =~= rest);
    } else {
        let c = t[0];
        let t1 = t.drop_first();
        let s1 = esc_str(t1) + seq!['"'] + rest;
        lemma_str_round(t1, rest);
        assert(esc_str(t) == esc_char(c) + esc_str(t1));
        if c == '"' {
            assert(s =~= seq!['\\', '"'] + s1);
            lemma_step_named(c, '"', s1, t1, rest);
        } else if c == '\\' {
            assert(s =~= seq!['\\', '\\'] + s1);
            lemma_step_named(c, '\\', s1, t1, rest);
        } else if c == '\n' {
            assert(s =~= seq!['\\', 'n'] + s1);
            lemma_step_named(c, 'n', s1, t1, rest);
        } else if c == '\r' {
            assert(s =~= seq!['\\', 'r'] + s1);
            lemma_step_named(c, 'r', s1, t1, rest);
        } else if c == '\t' {
            assert(s =~= seq!['\\', 't'] + s1);
            lemma_step_named(c, 't', s1, t1, rest);
        } else if c as u32 == 8 {
            assert(s =~= seq!['\\', 'b'] + s1);
            lemma_char_code_eq(c, '\u{0008}');
            lemma_step_named(c, 'b', s1, t1, rest);
        } else if c as u32 == 12 {
            assert(s =~= seq!['\\', 'f'] + s1);
            lemma_char_code_eq(c, '\u{000C}');
            lemma_step_named(c, 'f', s1, t1, rest);
        } else if (c as u32) < 32 {
            assert(s =~= seq!['\\', 'u', '0', '0', hex_digit((c as u32) / 16), hex_digit(
                (c as u32) % 16,
            )] + s1);
            lemma_step_u(c, s1, t1, rest);
        } else {
            assert(esc_char(c) == seq![c]);
            assert(s =~= seq![c] + s1);
            lemma_step_raw(c, s1, t1, rest);
        }
        assert(seq![c] + t1 =~= t);
    }
}

/// A quoted key, a colon and a quoted value parse back as that pair.
proof fn lemma_member_round(k: Seq<char>, val: Seq<char>, rest: Seq<char>)
    ensures
        sp_member(quoted(k) + seq![':'] + quoted(val) + rest) == Some(((k, val), rest)),
{
    let s = quoted(k) + seq![':'] + quoted(val) + rest;
    assert(s[0] == '"');
    lemma_trim_noop(s);
    let r1 = seq![':'] + quoted(val) + rest;
    assert(s.drop_first() =~= esc_str(k) + seq!['"'] + r1);
    lemma_str_round(k, r1);
    assert(r1[0] == ':');
    lemma_trim_noop(r1);
    let r2 = quoted(val) + rest;
    assert(r1.drop_first() =~= r2);
    assert(r2[0] == '"');
    lemma_trim_noop(r2);
    assert(r2.drop_first() =~= esc_str(val) + seq!['"'] + rest);
    lemma_str_round(val, rest);
}

/// A message object's text parses back as that message.
proof fn lemma_msg_round(m: MessageView, rest: Seq<char>)
    ensures
        sp_msg(msg_text(m) + rest) == Some((m, rest)),
{
    let s = msg_text(m) + rest;
    assert(s[0] == '{');
    lemma_trim_noop(s);
    let r1 = seq![','] + quoted(content_key()) + seq![':'] + quoted(m.content) + seq!['}'] + rest;
    assert(s.drop_first() =~= quoted(role_key()) + seq![':'] + quoted(m.role) + r1);
    lemma_member_round(role_key(), m.role, r1);
    assert(r1[0] == ',');
    lemma_trim_noop(r1);
    let r2 = seq!['}'] + rest;
    assert(r1.drop_first() =~= quoted(content_key()) + seq![':'] + quoted(m.content) + r2);
    lemma_member_round(content_key(), m.content, r2);
    assert(r2[0] == '}');
    lemma_trim_noop(r2);
    assert(r2.drop_first() =~= rest);
    assert(role_key() != content_key()) by {
        assert(role_key().len() != content_key().len());
    }
    assert(sp_msg(s) == Some((MessageView { role: m.role, content: m.content }, rest)));
    assert(MessageView { role: m.role, content: m.content } == m);
}

/// The joined message objects are at least as long as the sequence itself.
proof fn lemma_msgs_len(ms: Seq<MessageView>)
    ensures
        msgs_text(ms).len() >= ms.len(),
    decreases ms.len(),
{
    if ms.len() == 0 {
    } else if ms.len() == 1 {
        assert(msg_text(ms[0]).len() >= 1);
    } else {
        lemma_msgs_len(ms.drop_first());
        assert(msg_text(ms[0]).len() >= 1);
    }
}

/// One or more joined message objects, a bracket and a remainder parse
/// back as that sequence, given enough fuel.
#[verifier::rlimit(50)]
proof fn lemma_items_round(ms: Seq<MessageView>, rest: Seq<char>, fuel: nat)
    requires
        ms.len() >= 1,
        fuel >= ms.len(),
    ensures
        sp_items(msgs_text(ms) + seq![']'] + rest, fuel) == Some((ms, rest)),
    decreases ms.len(),
{
    let s = msgs_text(ms) + seq![']'] + rest;
    if ms.len() == 1 {
        let r1 = seq![']'] + rest;
        assert(s =~= msg_text(ms[0]) + r1);
        lemma_msg_round(ms[0], r1);
        assert(r1[0] == ']');
        lemma_trim_noop(r1);
        assert(r1.drop_first() =~= rest);
        assert(seq![ms[0]] =~= ms);
    } else {
        let ms1 = ms.drop_first();
        let r1 = seq![','] + msgs_text(ms1) + seq![']'] + rest;
        assert(s =~= msg_text(ms[0]) + r1);
        lemma_msg_round(ms[0], r1);
        assert(r1[0] == ',');
        lemma_trim_noop(r1);
        assert(r1.drop_first() =~= msgs_text(ms1) + seq![']'] + rest);
        lemma_items_round(ms1, rest, (fuel - 1) as nat);
        assert(seq![ms[0]] + ms1 =~= ms);
    }
}

/// Round-trip law of the history store: the text the encoder writes for
/// any message sequence parses back as exactly that sequence, so a load
/// right after a save sees the same ordered role/content pairs.
pub proof fn lemma_history_round_trip(ms: Seq<MessageView>)
    ensures
        sp_hist(hist_text(ms)) == Some(ms),
{
    let s = hist_text(ms);
    assert(s[0] == '[');
    lemma_trim_noop(s);
    if ms.len() == 0 {
        assert(s.drop_first() =~= seq![']']);
        let s2 = seq![']'];
        lemma_trim_noop(s2);
        assert(s2[0] == ']');
        assert(s2.drop_first() =~= Seq::<char>::empty());
        assert(sp_trim(Seq::<char>::empty()).len() == 0);
        assert(sp_hist(s) == Some(Seq::<MessageView>::empty()));
        assert(Seq::<MessageView>::empty() =~= ms);
    } else {
        assert(s.drop_first() =~= msgs_text(ms) + seq![']'] + Seq::<char>::empty());
        assert(msgs_text(ms)[0] == '{') by {
            assert(msg_text(ms[0])[0] == '{');
        }
        let s2m = msgs_text(ms) + seq![']'] + Seq::<char>::empty();
        assert(s2m[0] == '{');
        lemma_trim_noop(s2m);
        lemma_msgs_len(ms);
        assert(s.len() >= ms.len());
        lemma_items_round(ms, Seq::<char>::empty(), s.len() as nat);
        assert(sp_trim(Seq::<char>::empty()).len() == 0);
    }
}

} // verus!
