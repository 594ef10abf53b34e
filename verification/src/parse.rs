//! Parser for the persisted history file.
//!
//! The file holds a JSON array of `{"role", "content"}` objects. The spec
//! functions here define exactly which texts are accepted and what they
//! denote; the executable parser returns precisely that. Besides the
//! canonical text written by the encoder it accepts surrounding
//! whitespace, either key order, and the full set of JSON string escapes
//! (`\uXXXX` for any Unicode scalar value).

use vstd::prelude::*;
use crate::models::Message;
use crate::models::MessageView;
use crate::models::msgs_view;
use crate::json::role_key;
use crate::json::content_key;
use crate::text::char_of;
use crate::text::chars_eq_str;
use crate::text::char_from_code;
use crate::text::chars_of;
use crate::text::string_from_chars;
use crate::text::valid_scalar;
use crate::text::lemma_char_of_code;

verus! {

/// JSON whitespace.
pub open spec fn is_ws(c: char) -> bool {
    c == ' ' || c == '\n' || c == '\t' || c == '\r'
}

/// The text with its leading whitespace removed.
pub open spec fn sp_trim(s: Seq<char>) -> Seq<char>
    decreases s.len(),
{
    if s.len() > 0 && is_ws(s[0]) {
        sp_trim(s.drop_first())
    } else {
        s
    }
}

/// The value of a hexadecimal digit character, if it is one.
pub open spec fn hex_val(c: char) -> Option<u32> {
    let n = c as u32;
    if 48 <= n && n <= 57 {
        Some((n - 48) as u32)
    } else if 97 <= n && n <= 102 {
        Some((n - 87) as u32)
    } else if 65 <= n && n <= 70 {
        Some((n - 55) as u32)
    } else {
        None
    }
}

/// The character a two-character escape stands for, if the second
/// character names one.
pub open spec fn esc_decode(e: char) -> Option<char> {
    if e == '"' {
        Some('"')
    } else if e == '\\' {
        Some('\\')
    } else if e == '/' {
        Some('/')
    } else if e == 'b' {
        Some('\u{0008}')
    } else if e == 'f' {
        Some('\u{000C}')
    } else if e == 'n' {
        Some('\n')
    } else if e == 'r' {
        Some('\r')
    } else if e == 't' {
        Some('\t')
    } else {
        None
    }
}

/// The body of a JSON string, read up to and through its closing quote:
/// the characters it denotes, and the text that follows.
pub open spec fn sp_str_body(s: Seq<char>) -> Option<(Seq<char>, Seq<char>)>
    decreases s.len(),
{
    if s.len() == 0 {
        None
    } else if s[0] == '"' {
        Some((Seq::empty(), s.drop_first()))
    } else if s[0] == '\\' {
        if s.len() < 2 {
            None
        } else if s[1] == 'u' {
            if s.len() < 6 {
                None
            } else if hex_val(s[2]) is Some && hex_val(s[3]) is Some && hex_val(s[4]) is Some
                && hex_val(s[5]) is Some {
                let code = ((hex_val(s[2])->0 * 4096 + hex_val(s[3])->0 * 256 + hex_val(s[4])->0
                    * 16 + hex_val(s[5])->0) as u32);
                if valid_scalar(code) {
                    match sp_str_body(s.skip(6)) {
                        Some((t, r)) => Some((seq![char_of(code)] + t, r)),
                        None => None,
                    }
                } else {
                    None
                }
            } else {
                None
            }
        } else if esc_decode(s[1]) is Some {
            match sp_str_body(s.skip(2)) {
                Some((t, r)) => Some((seq![esc_decode(s[1])->0] + t, r)),
                None => None,
            }
        } else {
            None
        }
    } else {
        match sp_str_body(s.drop_first()) {
            Some((t, r)) => Some((seq![s[0]] + t, r)),
            None => None,
        }
    }
}

/// One `"key" : "value"` pair, and the text that follows it.
pub open spec fn sp_member(s: Seq<char>) -> Option<((Seq<char>, Seq<char>), Seq<char>)> {
    let s1 = sp_trim(s);
    if s1.len() == 0 || s1[0] != '"' {
        None
    } else {
        match sp_str_body(s1.drop_first()) {
            None => None,
            Some((key, s2)) => {
                let s3 = sp_trim(s2);
                if s3.len() == 0 || s3[0] != ':' {
                    None
                } else {
                    let s4 = sp_trim(s3.drop_first());
                    if s4.len() == 0 || s4[0] != '"' {
                        None
                    } else {
                        match sp_str_body(s4.drop_first()) {
                            None => None,
                            Some((val, s5)) => Some(((key, val), s5)),
                        }
                    }
                }
            },
        }
    }
}

/// One message object: exactly a role member and a content member, in
/// either order.
pub open spec fn sp_msg(s: Seq<char>) -> Option<(MessageView, Seq<char>)> {
    let s1 = sp_trim(s);
    if s1.len() == 0 || s1[0] != '{' {
        None
    } else {
        match sp_member(s1.drop_first()) {
            None => None,
            Some(((k1, v1), s2)) => {
                let s3 = sp_trim(s2);
                if s3.len() == 0 || s3[0] != ',' {
                    None
                } else {
                    match sp_member(s3.drop_first()) {
                        None => None,
                        Some(((k2, v2), s4)) => {
                            let s5 = sp_trim(s4);
                            if s5.len() == 0 || s5[0] != '}' {
                                None
                            } else {
                                let rest = s5.drop_first();
                                if k1 == role_key() && k2 == content_key() {
                                    Some((MessageView { role: v1, content: v2 }, rest))
                                } else if k1 == content_key() && k2 == role_key() {
                                    Some((MessageView { role: v2, content: v1 }, rest))
                                } else {
                                    None
                                }
                            }
                        },
                    }
                }
            },
        }
    }
}

/// One or more message objects separated by commas, read up to and
/// through the closing bracket.
pub open spec fn sp_items(s: Seq<char>, fuel: nat) -> Option<(Seq<MessageView>, Seq<char>)>
    decreases fuel,
{
    if fuel == 0 {
        None
    } else {
        match sp_msg(s) {
            None => None,
            Some((m, s2)) => {
                let s3 = sp_trim(s2);
                if s3.len() > 0 && s3[0] == ',' {
                    match sp_items(s3.drop_first(), (fuel - 1) as nat) {
                        Some((ms, r)) => Some((seq![m] + ms, r)),
                        None => None,
                    }
                } else if s3.len() > 0 && s3[0] == ']' {
                    Some((seq![m], s3.drop_first()))
                } else {
                    None
                }
            },
        }
    }
}

/// What a history file's text denotes, if it is well-formed: a bracketed,
/// comma-separated array of message objects and nothing else.
pub open spec fn sp_hist(s: Seq<char>) -> Option<Seq<MessageView>> {
    let s1 = sp_trim(s);
    if s1.len() == 0 || s1[0] != '[' {
        None
    } else {
        let s2 = sp_trim(s1.drop_first());
        if s2.len() > 0 && s2[0] == ']' {
            if sp_trim(s2.drop_first()).len() == 0 {
                Some(Seq::empty())
            } else {
                None
            }
        } else {
            match sp_items(s1.drop_first(), s.len() as nat) {
                None => None,
                Some((ms, r)) => if sp_trim(r).len() == 0 {
                    Some(ms)
                } else {
                    None
                },
            }
        }
    }
}

/// Loading the history fails as a whole when its text is not well-formed.
#[derive(Debug, PartialEq, Eq)]
pub enum HistoryError {
    Malformed,
}

/// The first position at or after `i` whose character is not whitespace.
fn trim_ws(v: &Vec<char>, i: usize) -> (j: usize)
    requires
        i <= v@.len(),
    ensures
        i <= j <= v@.len(),
        sp_trim(v@.skip(i as int)) == v@.skip(j as int),
{
    let mut j = i;
    while j < v.len() && (v[j] == ' ' || v[j] == '\n' || v[j] == '\t' || v[j] == '\r')
        invariant
            i <= j <= v@.len(),
            sp_trim(v@.skip(i as int)) == sp_trim(v@.skip(j as int)),
        decreases v@.len() - j,
    {
        proof {
            assert(v@.skip(j as int)[0] == v@[j as int]);
            assert(v@.skip(j as int).drop_first() =~= v@.skip(j + 1));
        }
        j = j + 1;
    }
    proof {
        if j < v@.len() {
            assert(v@.skip(j as int)[0] == v@[j as int]);
            assert(!is_ws(v@.skip(j as int)[0]));
        } else {
            assert(v@.skip(j as int).len() == 0);
        }
    }
    j
}

/// The value of a hexadecimal digit character, executably.
fn hex_val_ch(c: char) -> (r: Option<u32>)
    ensures
        r == hex_val(c),
{
    let n = c as u32;
    if 48 <= n && n <= 57 {
        Some(n - 48)
    } else if 97 <= n && n <= 102 {
        Some(n - 87)
    } else if 65 <= n && n <= 70 {
        Some(n - 55)
    } else {
        None
    }
}

/// The character a two-character escape stands for, executably.
fn esc_decode_ch(e: char) -> (r: Option<char>)
    ensures
        r == esc_decode(e),
{
    if e == '"' {
        Some('"')
    } else if e == '\\' {
        Some('\\')
    } else if e == '/' {
        Some('/')
    } else if e == 'b' {
        Some('\u{0008}')
    } else if e == 'f' {
        Some('\u{000C}')
    } else if e == 'n' {
        Some('\n')
    } else if e == 'r' {
        Some('\r')
    } else if e == 't' {
        Some('\t')
    } else {
        None
    }
}

/// Reads a string body starting at `i`, just past the opening quote.
fn parse_strbody(v: &Vec<char>, i: usize) -> (r: Option<(Vec<char>, usize)>)
    requires
        i <= v@.len(),
    ensures
        r is None ==> sp_str_body(v@.skip(i as int)) is None,
        r matches Some((t, j)) ==> i <= j <= v@.len() && sp_str_body(v@.skip(i as int)) == Some(
            (t@, v@.skip(j as int)),
        ),
    decreases v@.len() - i,
{
    let ghost s = v@.skip(i as int);
    proof {
        assert(s.len() == v@.len() - i);
    }
    if i >= v.len() {
        return None;
    }
    let c = v[i];
    proof {
        assert(s[0] == c);
    }
    if c == '"' {
        proof {
            assert(s.drop_first() =~= v@.skip(i + 1));
        }
        return Some((Vec::new(), i + 1));
    }
    if c == '\\' {
        if i + 1 >= v.len() {
            return None;
        }
        let e = v[i + 1];
        proof {
            assert(s[1] == e);
        }
        if e == 'u' {
            if v.len() - i < 6 {
                return None;
            }
            proof {
                assert(s[2] == v@[i + 2]);
                assert(s[3] == v@[i + 3]);
                assert(s[4] == v@[i + 4]);
                assert(s[5] == v@[i + 5]);
            }
            let h2 = hex_val_ch(v[i + 2]);
            let h3 = hex_val_ch(v[i + 3]);
            let h4 = hex_val_ch(v[i + 4]);
            let h5 = hex_val_ch(v[i + 5]);
            if h2.is_none() || h3.is_none() || h4.is_none() || h5.is_none() {
                return None;
            }
            let code = h2.unwrap() * 4096 + h3.unwrap() * 256 + h4.unwrap() * 16 + h5.unwrap();
            if !(code < 0xD800 || (0xE000 <= code && code <= 0x10FFFF)) {
                return None;
            }
            let ch = char_from_code(code);
            match parse_strbody(v, i + 6) {
                None => {
                    proof {
                        assert(s.skip(6) =~= v@.skip(i + 6));
                    }
                    None
                },
                Some((t, j)) => {
                    let mut t2 = t;
                    t2.insert(0, ch);
                    proof {
                        lemma_char_of_code(ch);
                        assert(s.skip(6) =~= v@.skip(i + 6));
                        assert(t2@ =~= seq![char_of(code)] + t2@.drop_first());
                    }
                    Some((t2, j))
                },
            }
        } else {
            let d = esc_decode_ch(e);
            match d {
                None => None,
                Some(dc) => {
                    match parse_strbody(v, i + 2) {
                        None => {
                            proof {
                                assert(s.skip(2) =~= v@.skip(i + 2));
                            }
                            None
                        },
                        Some((t, j)) => {
                            let mut t2 = t;
                            t2.insert(0, dc);
                            proof {
                                assert(s.skip(2) =~= v@.skip(i + 2));
                                assert(t2@ =~= seq![dc] + t2@.drop_first());
                            }
                            Some((t2, j))
                        },
                    }
                },
            }
        }
    } else {
        match parse_strbody(v, i + 1) {
            None => {
                proof {
                    assert(s.drop_first() =~= v@.skip(i + 1));
                }
                None
            },
            Some((t, j)) => {
                let mut t2 = t;
                t2.insert(0, c);
                proof {
                    assert(s.drop_first() =~= v@.skip(i + 1));
                    assert(t2@ =~= seq![c] + t2@.drop_first());
                }
                Some((t2, j))
            },
        }
    }
}

/// Reads one `"key" : "value"` pair starting at `i`.
fn parse_member(v: &Vec<char>, i: usize) -> (r: Option<(Vec<char>, Vec<char>, usize)>)
    requires
        i <= v@.len(),
    ensures
        r is None ==> sp_member(v@.skip(i as int)) is None,
        r matches Some((k, val, j)) ==> i <= j <= v@.len() && sp_member(v@.skip(i as int))
            == Some(((k@, val@), v@.skip(j as int))),
{
    let j1 = trim_ws(v, i);
    if j1 >= v.len() {
        return None;
    }
    if v[j1] != '"' {
        proof {
            assert(v@.skip(j1 as int)[0] == v@[j1 as int]);
        }
        return None;
    }
    proof {
        assert(v@.skip(j1 as int)[0] == v@[j1 as int]);
        assert(v@.skip(j1 as int).drop_first() =~= v@.skip(j1 + 1));
    }
    let key = parse_strbody(v, j1 + 1);
    match key {
        None => None,
        Some((k, j2)) => {
            let j3 = trim_ws(v, j2);
            if j3 >= v.len() {
                return None;
            }
            if v[j3] != ':' {
                proof {
                    assert(v@.skip(j3 as int)[0] == v@[j3 as int]);
                }
                return None;
            }
            proof {
                assert(v@.skip(j3 as int)[0] == v@[j3 as int]);
                assert(v@.skip(j3 as int).drop_first() =~= v@.skip(j3 + 1));
            }
            let j4 = trim_ws(v, j3 + 1);
            if j4 >= v.len() {
                return None;
            }
            if v[j4] != '"' {
                proof {
                    assert(v@.skip(j4 as int)[0] == v@[j4 as int]);
                }
                return None;
            }
            proof {
                assert(v@.skip(j4 as int)[0] == v@[j4 as int]);
                assert(v@.skip(j4 as int).drop_first() =~= v@.skip(j4 + 1));
            }
            match parse_strbody(v, j4 + 1) {
                None => None,
                Some((val, j5)) => Some((k, val, j5)),
            }
        },
    }
}

/// Reads one message object starting at `i`.
fn parse_msg(v: &Vec<char>, i: usize) -> (r: Option<(Message, usize)>)
    requires
        i <= v@.len(),
    ensures
        r is None ==> sp_msg(v@.skip(i as int)) is None,
        r matches Some((m, j)) ==> i <= j <= v@.len() && sp_msg(v@.skip(i as int)) == Some(
            (m@, v@.skip(j as int)),
        ),
{
    proof {
        reveal_strlit("role");
        reveal_strlit("content");
        assert("role"@ =~= role_key());
        assert("content"@ =~= content_key());
    }
    let j1 = trim_ws(v, i);
    if j1 >= v.len() {
        return None;
    }
    if v[j1] != '{' {
        proof {
            assert(v@.skip(j1 as int)[0] == v@[j1 as int]);
        }
        return None;
    }
    proof {
        assert(v@.skip(j1 as int)[0] == v@[j1 as int]);
        assert(v@.skip(j1 as int).drop_first() =~= v@.skip(j1 + 1));
    }
    match parse_member(v, j1 + 1) {
        None => None,
        Some((k1, v1, j2)) => {
            let j3 = trim_ws(v, j2);
            if j3 >= v.len() {
                return None;
            }
            if v[j3] != ',' {
                proof {
                    assert(v@.skip(j3 as int)[0] == v@[j3 as int]);
                }
                return None;
            }
            proof {
                assert(v@.skip(j3 as int)[0] == v@[j3 as int]);
                assert(v@.skip(j3 as int).drop_first() =~= v@.skip(j3 + 1));
            }
            match parse_member(v, j3 + 1) {
                None => None,
                Some((k2, v2, j4)) => {
                    let j5 = trim_ws(v, j4);
                    if j5 >= v.len() {
                        return None;
                    }
                    if v[j5] != '}' {
                        proof {
                            assert(v@.skip(j5 as int)[0] == v@[j5 as int]);
                        }
                        return None;
                    }
                    proof {
                        assert(v@.skip(j5 as int)[0] == v@[j5 as int]);
                        assert(v@.skip(j5 as int).drop_first() =~= v@.skip(j5 + 1));
                    }
                    let k1_role = chars_eq_str(&k1, "role");
                    let k1_content = chars_eq_str(&k1, "content");
                    let k2_role = chars_eq_str(&k2, "role");
                    let k2_content = chars_eq_str(&k2, "content");
                    if k1_role && k2_content {
                        let m = Message {
                            role: string_from_chars(&v1),
                            content: string_from_chars(&v2),
                        };
                        Some((m, j5 + 1))
                    } else if k1_content && k2_role {
                        let m = Message {
                            role: string_from_chars(&v2),
                            content: string_from_chars(&v1),
                        };
                        Some((m, j5 + 1))
                    } else {
                        None
                    }
                },
            }
        },
    }
}

/// Reads comma-separated message objects through the closing bracket.
fn parse_items(v: &Vec<char>, i: usize, fuel: usize) -> (r: Option<(Vec<Message>, usize)>)
    requires
        i <= v@.len(),
    ensures
        r is None ==> sp_items(v@.skip(i as int), fuel as nat) is None,
        r matches Some((ms, j)) ==> i <= j <= v@.len() && sp_items(v@.skip(i as int), fuel as nat)
            == Some((msgs_view(ms@), v@.skip(j as int))),
    decreases fuel,
{
    if fuel == 0 {
        return None;
    }
    match parse_msg(v, i) {
        None => None,
        Some((m, j2)) => {
            let j3 = trim_ws(v, j2);
            if j3 < v.len() && v[j3] == ',' {
                proof {
                    assert(v@.skip(j3 as int)[0] == v@[j3 as int]);
                    assert(v@.skip(j3 as int).drop_first() =~= v@.skip(j3 + 1));
                }
                match parse_items(v, j3 + 1, fuel - 1) {
                    None => None,
                    Some((ms, jr)) => {
                        let mut ms2 = ms;
                        ms2.insert(0, m);
                        proof {
                            assert(msgs_view(ms2@) =~= seq![m@] + msgs_view(ms2@.drop_first()));
                            assert(ms2@.drop_first() =~= ms2@.subrange(1, ms2@.len() as int));
                        }
                        Some((ms2, jr))
                    },
                }
            } else if j3 < v.len() && v[j3] == ']' {
                proof {
                    assert(v@.skip(j3 as int)[0] == v@[j3 as int]);
                    assert(v@.skip(j3 as int).drop_first() =~= v@.skip(j3 + 1));
                }
                let mut one: Vec<Message> = Vec::new();
                one.push(m);
                proof {
                    assert(msgs_view(one@) =~= seq![m@]);
                }
                Some((one, j3 + 1))
            } else {
                proof {
                    if j3 < v.len() {
                        assert(v@.skip(j3 as int)[0] == v@[j3 as int]);
                    } else {
                        assert(v@.skip(j3 as int).len() == 0);
                    }
                }
                None
            }
        },
    }
}

/// Parses persisted history text into the message sequence it denotes, or
/// reports that the text is malformed.
pub fn decode_history(s: &str) -> (r: Result<Vec<Message>, HistoryError>)
    ensures
        r matches Ok(h) ==> sp_hist(s@) == Some(msgs_view(h@)),
        r is Err ==> sp_hist(s@) is None,
{
    let v = chars_of(s);
    proof {
        assert(v@.skip(0) =~= s@);
    }
    let j1 = trim_ws(&v, 0);
    if j1 >= v.len() {
        return Err(HistoryError::Malformed);
    }
    if v[j1] != '[' {
        proof {
            assert(v@.skip(j1 as int)[0] == v@[j1 as int]);
        }
        return Err(HistoryError::Malformed);
    }
    proof {
        assert(v@.skip(j1 as int)[0] == v@[j1 as int]);
        assert(v@.skip(j1 as int).drop_first() =~= v@.skip(j1 + 1));
    }
    let j2 = trim_ws(&v, j1 + 1);
    if j2 < v.len() && v[j2] == ']' {
        proof {
            assert(v@.skip(j2 as int)[0] == v@[j2 as int]);
            assert(v@.skip(j2 as int).drop_first() =~= v@.skip(j2 + 1));
        }
        let j3 = trim_ws(&v, j2 + 1);
        if j3 >= v.len() {
            proof {
                assert(v@.skip(j3 as int).len() == 0);
                assert(msgs_view(Seq::<Message>::empty()) =~= Seq::<MessageView>::empty());
            }
            let empty: Vec<Message> = Vec::new();
            proof {
                assert(msgs_view(empty@) =~= Seq::<MessageView>::empty());
            }
            return Ok(empty);
        } else {
            return Err(HistoryError::Malformed);
        }
    }
    proof {
        if j2 < v@.len() {
            assert(v@.skip(j2 as int)[0] == v@[j2 as int]);
        } else {
            assert(v@.skip(j2 as int).len() == 0);
        }
    }
    match parse_items(&v, j1 + 1, v.len()) {
        None => Err(HistoryError::Malformed),
        Some((ms, jr)) => {
            let j4 = trim_ws(&v, jr);
            if j4 >= v.len() {
                proof {
                    assert(v@.skip(j4 as int).len() == 0);
                }
                Ok(ms)
            } else {
                Err(HistoryError::Malformed)
            }
        },
    }
}

} // verus!
