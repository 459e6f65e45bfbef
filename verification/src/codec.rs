//! The JSON wire format of the chat protocol: the envelope record and
//! the nested message payload, with a verified encoder and decoder.
//!
//! An envelope is the object
//! `{"messageType": <tag>, "dataArray": <strings or null>, "data": <string or null>}`;
//! the payload carried by a `message` envelope is the object
//! `{"from": <string>, "message": <string>}`. The decoder accepts the
//! grammar exactly: members in any order, each key at most once, no
//! unknown keys, JSON whitespace between tokens, and string escapes
//! (the eight simple escapes and `\u` with a non-surrogate code unit).

use vstd::prelude::*;
use vstd::string::StrSliceExecFns;
use crate::model::MessageData;
use crate::model::MessageDataView;
use crate::model::MsgTypes;
use crate::model::WebSocketMessage;
use crate::model::WebSocketMessageView;
use crate::strutil::chars_eq_str;
use crate::strutil::chars_to_string;
use crate::strutil::push_str_chars;
use crate::strutil::str_chars;

verus! {

// ---------------------------------------------------------------------
// The encoded text, as a function of the record.
// ---------------------------------------------------------------------

/// Digit `n` as a lowercase hexadecimal character.
pub open spec fn hex_lower(n: int) -> char
    recommends
        0 <= n < 16,
{
    if n == 0 {
        '0'
    } else if n == 1 {
        '1'
    } else if n == 2 {
        '2'
    } else if n == 3 {
        '3'
    } else if n == 4 {
        '4'
    } else if n == 5 {
        '5'
    } else if n == 6 {
        '6'
    } else if n == 7 {
        '7'
    } else if n == 8 {
        '8'
    } else if n == 9 {
        '9'
    } else if n == 10 {
        'a'
    } else if n == 11 {
        'b'
    } else if n == 12 {
        'c'
    } else if n == 13 {
        'd'
    } else if n == 14 {
        'e'
    } else {
        'f'
    }
}

/// How one character appears inside a JSON string: quote and backslash
/// get a backslash escape, the control characters with a short escape
/// use it, every other control character becomes `\u00xx`, and all
/// remaining characters stand as themselves.
pub open spec fn escape_char(c: char) -> Seq<char> {
    if c == '"' {
        seq!['\\', '"']
    } else if c == '\\' {
        seq!['\\', '\\']
    } else if c == '\u{08}' {
        seq!['\\', 'b']
    } else if c == '\u{0C}' {
        seq!['\\', 'f']
    } else if c == '\n' {
        seq!['\\', 'n']
    } else if c == '\r' {
        seq!['\\', 'r']
    } else if c == '\t' {
        seq!['\\', 't']
    } else if (c as u32) < 0x20 {
        seq!['\\', 'u', '0', '0', hex_lower((c as u32) as int / 16), hex_lower(
            (c as u32) as int % 16,
        )]
    } else {
        seq![c]
    }
}

/// The escaped form of a whole character sequence.
pub open spec fn escape_string(s: Seq<char>) -> Seq<char>
    decreases s.len(),
{
    if s.len() == 0 {
        Seq::empty()
    } else {
        escape_char(s[0]) + escape_string(s.drop_first())
    }
}

/// A character sequence as a JSON string token: quoted and escaped.
pub open spec fn quoted(s: Seq<char>) -> Seq<char> {
    seq!['"'] + escape_string(s) + seq!['"']
}

/// The JSON `null` literal.
pub open spec fn null_text() -> Seq<char> {
    seq!['n', 'u', 'l', 'l']
}

/// The tag string carried by `messageType` for each envelope kind.
pub open spec fn msg_type_name(t: MsgTypes) -> Seq<char> {
    match t {
        MsgTypes::Users => "users"@,
        MsgTypes::Register => "register"@,
        MsgTypes::Message => "message"@,
    }
}

/// The elements of a string array after the first: a comma and a
/// string token for each.
pub open spec fn strings_items(a: Seq<Seq<char>>) -> Seq<char>
    decreases a.len(),
{
    if a.len() == 0 {
        Seq::empty()
    } else {
        seq![','] + quoted(a[0]) + strings_items(a.drop_first())
    }
}

/// A string array as a JSON array token.
pub open spec fn strings_array_text(a: Seq<Seq<char>>) -> Seq<char> {
    if a.len() == 0 {
        seq!['[', ']']
    } else {
        seq!['['] + quoted(a[0]) + strings_items(a.drop_first()) + seq![']']
    }
}

/// An optional string array: the array token, or `null`.
pub open spec fn opt_array_text(o: Option<Seq<Seq<char>>>) -> Seq<char> {
    match o {
        Some(a) => strings_array_text(a),
        None => null_text(),
    }
}

/// An optional string: the string token, or `null`.
pub open spec fn opt_string_text(o: Option<Seq<char>>) -> Seq<char> {
    match o {
        Some(s) => quoted(s),
        None => null_text(),
    }
}

/// The encoded envelope: its three members in declaration order.
pub open spec fn envelope_text(e: WebSocketMessageView) -> Seq<char> {
    "{\"messageType\":\""@ + msg_type_name(e.message_type) + "\",\"dataArray\":"@ + opt_array_text(
        e.data_array,
    ) + ",\"data\":"@ + opt_string_text(e.data) + "}"@
}

/// The encoded message payload: `from` then `message`.
pub open spec fn message_data_text(m: MessageDataView) -> Seq<char> {
    "{\"from\":"@ + quoted(m.from) + ",\"message\":"@ + quoted(m.message) + "}"@
}

// ---------------------------------------------------------------------
// The accepted grammar, as partial functions from a position in the
// text to the parsed value and the position after it.
// ---------------------------------------------------------------------

/// JSON whitespace.
pub open spec fn is_ws(c: char) -> bool {
    c == ' ' || c == '\t' || c == '\n' || c == '\r'
}

/// The first position at or after `i` holding no whitespace.
pub open spec fn skip_ws_spec(s: Seq<char>, i: int) -> int
    decreases s.len() - i,
    when 0 <= i <= s.len()
{
    if i < s.len() && is_ws(s[i]) {
        skip_ws_spec(s, i + 1)
    } else {
        i
    }
}

proof fn lemma_skip_ws_bounds(s: Seq<char>, i: int)
    requires
        0 <= i <= s.len(),
    ensures
        i <= skip_ws_spec(s, i) <= s.len(),
    decreases s.len() - i,
{
    if i < s.len() && is_ws(s[i]) {
        lemma_skip_ws_bounds(s, i + 1);
    }
}

/// The value of a hexadecimal digit, or -1.
pub open spec fn hex_val(c: char) -> int {
    let u = c as u32;
    if 0x30 <= u && u <= 0x39 {
        u - 0x30
    } else if 0x61 <= u && u <= 0x66 {
        u - 0x61 + 10
    } else if 0x41 <= u && u <= 0x46 {
        u - 0x41 + 10
    } else {
        -1
    }
}

/// The character denoted by a simple escape `\c`.
pub open spec fn unescape_simple(c: char) -> char {
    if c == 'b' {
        '\u{08}'
    } else if c == 'f' {
        '\u{0C}'
    } else if c == 'n' {
        '\n'
    } else if c == 'r' {
        '\r'
    } else if c == 't' {
        '\t'
    } else {
        c
    }
}

/// Whether `c` introduces a simple escape.
pub open spec fn is_simple_escape(c: char) -> bool {
    c == '"' || c == '\\' || c == '/' || c == 'b' || c == 'f' || c == 'n' || c == 'r' || c == 't'
}

/// The body of a JSON string from position `i` (just after the opening
/// quote): its decoded content, and the position after the closing
/// quote. Raw control characters are refused; `\u` escapes must name a
/// non-surrogate code unit.
pub open spec fn parse_string_body_spec(s: Seq<char>, i: int) -> Option<(Seq<char>, int)>
    decreases s.len() - i,
    when 0 <= i <= s.len()
{
    if i >= s.len() {
        None
    } else if s[i] == '"' {
        Some((Seq::empty(), i + 1))
    } else if s[i] == '\\' {
        if i + 1 >= s.len() {
            None
        } else {
            let e = s[i + 1];
            if is_simple_escape(e) {
                match parse_string_body_spec(s, i + 2) {
                    Some((rest, j)) => Some((seq![unescape_simple(e)] + rest, j)),
                    None => None,
                }
            } else if e == 'u' {
                if i + 6 <= s.len() {
                    let h1 = hex_val(s[i + 2]);
                    let h2 = hex_val(s[i + 3]);
                    let h3 = hex_val(s[i + 4]);
                    let h4 = hex_val(s[i + 5]);
                    if h1 >= 0 && h2 >= 0 && h3 >= 0 && h4 >= 0 {
                        let code = h1 * 4096 + h2 * 256 + h3 * 16 + h4;
                        if 0xD800 <= code && code <= 0xDFFF {
                            None
                        } else {
                            match parse_string_body_spec(s, i + 6) {
                                Some((rest, j)) => Some((seq![((code as u32) as char)] + rest, j)),
                                None => None,
                            }
                        }
                    } else {
                        None
                    }
                } else {
                    None
                }
            } else {
                None
            }
        }
    } else if (s[i] as u32) < 0x20 {
        None
    } else {
        match parse_string_body_spec(s, i + 1) {
            Some((rest, j)) => Some((seq![s[i]] + rest, j)),
            None => None,
        }
    }
}

proof fn lemma_parse_string_body_bounds(s: Seq<char>, i: int)
    requires
        0 <= i <= s.len(),
    ensures
        parse_string_body_spec(s, i) matches Some(p) ==> i < p.1 <= s.len(),
    decreases s.len() - i,
{
    if i < s.len() {
        if s[i] == '\\' {
            if i + 1 < s.len() {
                if is_simple_escape(s[i + 1]) {
                    lemma_parse_string_body_bounds(s, i + 2);
                } else if s[i + 1] == 'u' && i + 6 <= s.len() {
                    lemma_parse_string_body_bounds(s, i + 6);
                }
            }
        } else if s[i] != '"' && (s[i] as u32) >= 0x20 {
            lemma_parse_string_body_bounds(s, i + 1);
        }
    }
}

/// The elements of a string array after the first, from position `i`
/// (just after a string): each a comma and a string, up to the closing
/// bracket.
pub open spec fn parse_array_rest_spec(s: Seq<char>, i: int) -> Option<(Seq<Seq<char>>, int)>
    decreases s.len() - i,
    when 0 <= i <= s.len()
    via parse_array_rest_decreases
{
    let j = skip_ws_spec(s, i);
    if j < s.len() && s[j] == ']' {
        Some((Seq::empty(), j + 1))
    } else if j < s.len() && s[j] == ',' {
        let k = skip_ws_spec(s, j + 1);
        if k < s.len() && s[k] == '"' {
            match parse_string_body_spec(s, k + 1) {
                Some((x, l)) => match parse_array_rest_spec(s, l) {
                    Some((rest, m)) => Some((seq![x] + rest, m)),
                    None => None,
                },
                None => None,
            }
        } else {
            None
        }
    } else {
        None
    }
}

#[via_fn]
proof fn parse_array_rest_decreases(s: Seq<char>, i: int) {
    lemma_skip_ws_bounds(s, i);
    let j = skip_ws_spec(s, i);
    if j < s.len() && s[j] == ',' {
        lemma_skip_ws_bounds(s, j + 1);
        let k = skip_ws_spec(s, j + 1);
        if k < s.len() && s[k] == '"' {
            lemma_parse_string_body_bounds(s, k + 1);
        }
    }
}

proof fn lemma_parse_array_rest_bounds(s: Seq<char>, i: int)
    requires
        0 <= i <= s.len(),
    ensures
        parse_array_rest_spec(s, i) matches Some(p) ==> i < p.1 <= s.len(),
    decreases s.len() - i,
{
    lemma_skip_ws_bounds(s, i);
    let j = skip_ws_spec(s, i);
    if j < s.len() && s[j] == ',' {
        lemma_skip_ws_bounds(s, j + 1);
        let k = skip_ws_spec(s, j + 1);
        if k < s.len() && s[k] == '"' {
            lemma_parse_string_body_bounds(s, k + 1);
            match parse_string_body_spec(s, k + 1) {
                Some((x, l)) => {
                    lemma_parse_array_rest_bounds(s, l);
                },
                None => {},
            }
        }
    }
}

/// A string array from position `i` (just after the opening bracket):
/// its elements, and the position after the closing bracket.
pub open spec fn parse_array_spec(s: Seq<char>, i: int) -> Option<(Seq<Seq<char>>, int)>
    recommends
        0 <= i <= s.len(),
{
    let j = skip_ws_spec(s, i);
    if j < s.len() && s[j] == ']' {
        Some((Seq::empty(), j + 1))
    } else if j < s.len() && s[j] == '"' {
        match parse_string_body_spec(s, j + 1) {
            Some((x, k)) => match parse_array_rest_spec(s, k) {
                Some((rest, l)) => Some((seq![x] + rest, l)),
                None => None,
            },
            None => None,
        }
    } else {
        None
    }
}

proof fn lemma_parse_array_bounds(s: Seq<char>, i: int)
    requires
        0 <= i <= s.len(),
    ensures
        parse_array_spec(s, i) matches Some(p) ==> i < p.1 <= s.len(),
{
    lemma_skip_ws_bounds(s, i);
    let j = skip_ws_spec(s, i);
    if j < s.len() && s[j] == '"' {
        lemma_parse_string_body_bounds(s, j + 1);
        match parse_string_body_spec(s, j + 1) {
            Some((x, k)) => {
                lemma_parse_array_rest_bounds(s, k);
            },
            None => {},
        }
    }
}

/// Whether the `null` literal stands at position `i`.
pub open spec fn at_null(s: Seq<char>, i: int) -> bool {
    i + 4 <= s.len() && s[i] == 'n' && s[i + 1] == 'u' && s[i + 2] == 'l' && s[i + 3] == 'l'
}

/// The key of the envelope's discriminator member.
pub open spec fn mt_key() -> Seq<char> {
    "messageType"@
}

/// The key of the envelope's string-array member.
pub open spec fn da_key() -> Seq<char> {
    "dataArray"@
}

/// The key of the envelope's string member.
pub open spec fn d_key() -> Seq<char> {
    "data"@
}

/// What has been seen of an envelope while its members are parsed.
pub struct EnvAccView {
    pub mt: Option<MsgTypes>,
    pub seen_da: bool,
    pub da: Option<Seq<Seq<char>>>,
    pub seen_d: bool,
    pub d: Option<Seq<char>>,
}

/// One envelope member's value from position `i`, dispatched on the
/// member's key: `messageType` takes one of the three tag strings,
/// `dataArray` a string array or `null`, `data` a string or `null`.
/// A repeated or unknown key is refused.
pub open spec fn parse_member_value_spec(
    s: Seq<char>,
    i: int,
    key: Seq<char>,
    acc: EnvAccView,
) -> Option<(EnvAccView, int)>
    recommends
        0 <= i <= s.len(),
{
    if key == mt_key() {
        if acc.mt is Some {
            None
        } else if i < s.len() && s[i] == '"' {
            match parse_string_body_spec(s, i + 1) {
                Some((v, j)) => {
                    if v == msg_type_name(MsgTypes::Users) {
                        Some(
                            (
                                EnvAccView {
                                    mt: Some(MsgTypes::Users),
                                    seen_da: acc.seen_da,
                                    da: acc.da,
                                    seen_d: acc.seen_d,
                                    d: acc.d,
                                },
                                j,
                            ),
                        )
                    } else if v == msg_type_name(MsgTypes::Register) {
                        Some(
                            (
                                EnvAccView {
                                    mt: Some(MsgTypes::Register),
                                    seen_da: acc.seen_da,
                                    da: acc.da,
                                    seen_d: acc.seen_d,
                                    d: acc.d,
                                },
                                j,
                            ),
                        )
                    } else if v == msg_type_name(MsgTypes::Message) {
                        Some(
                            (
                                EnvAccView {
                                    mt: Some(MsgTypes::Message),
                                    seen_da: acc.seen_da,
                                    da: acc.da,
                                    seen_d: acc.seen_d,
                                    d: acc.d,
                                },
                                j,
                            ),
                        )
                    } else {
                        None
                    }
                },
                None => None,
            }
        } else {
            None
        }
    } else if key == da_key() {
        if acc.seen_da {
            None
        } else if at_null(s, i) {
            Some(
                (
                    EnvAccView {
                        mt: acc.mt,
                        seen_da: true,
                        da: None,
                        seen_d: acc.seen_d,
                        d: acc.d,
                    },
                    i + 4,
                ),
            )
        } else if i < s.len() && s[i] == '[' {
            match parse_array_spec(s, i + 1) {
                Some((a, j)) => Some(
                    (
                        EnvAccView {
                            mt: acc.mt,
                            seen_da: true,
                            da: Some(a),
                            seen_d: acc.seen_d,
                            d: acc.d,
                        },
                        j,
                    ),
                ),
                None => None,
            }
        } else {
            None
        }
    } else if key == d_key() {
        if acc.seen_d {
            None
        } else if at_null(s, i) {
            Some(
                (
                    EnvAccView {
                        mt: acc.mt,
                        seen_da: acc.seen_da,
                        da: acc.da,
                        seen_d: true,
                        d: None,
                    },
                    i + 4,
                ),
            )
        } else if i < s.len() && s[i] == '"' {
            match parse_string_body_spec(s, i + 1) {
                Some((x, j)) => Some(
                    (
                        EnvAccView {
                            mt: acc.mt,
                            seen_da: acc.seen_da,
                            da: acc.da,
                            seen_d: true,
                            d: Some(x),
                        },
                        j,
                    ),
                ),
                None => None,
            }
        } else {
            None
        }
    } else {
        None
    }
}

proof fn lemma_parse_member_value_bounds(s: Seq<char>, i: int, key: Seq<char>, acc: EnvAccView)
    requires
        0 <= i <= s.len(),
    ensures
        parse_member_value_spec(s, i, key, acc) matches Some(p) ==> i < p.1 <= s.len(),
{
    if i < s.len() && s[i] == '"' {
        lemma_parse_string_body_bounds(s, i + 1);
    }
    if i < s.len() && s[i] == '[' {
        lemma_parse_array_bounds(s, i + 1);
    }
}

/// The members of an envelope object from position `i` (at a key
/// string), through the closing brace: the accumulated envelope, and
/// the position after the brace.
pub open spec fn parse_members_spec(s: Seq<char>, i: int, acc: EnvAccView) -> Option<
    (EnvAccView, int),
>
    decreases s.len() - i,
    when 0 <= i <= s.len()
    via parse_members_decreases
{
    if i < s.len() && s[i] == '"' {
        match parse_string_body_spec(s, i + 1) {
            Some((key, j)) => {
                let k = skip_ws_spec(s, j);
                if k < s.len() && s[k] == ':' {
                    let l = skip_ws_spec(s, k + 1);
                    match parse_member_value_spec(s, l, key, acc) {
                        Some((acc2, m)) => {
                            let n = skip_ws_spec(s, m);
                            if n < s.len() && s[n] == '}' {
                                Some((acc2, n + 1))
                            } else if n < s.len() && s[n] == ',' {
                                let p = skip_ws_spec(s, n + 1);
                                parse_members_spec(s, p, acc2)
                            } else {
                                None
                            }
                        },
                        None => None,
                    }
                } else {
                    None
                }
            },
            None => None,
        }
    } else {
        None
    }
}

#[via_fn]
proof fn parse_members_decreases(s: Seq<char>, i: int, acc: EnvAccView) {
    if i < s.len() && s[i] == '"' {
        lemma_parse_string_body_bounds(s, i + 1);
        match parse_string_body_spec(s, i + 1) {
            Some((key, j)) => {
                lemma_skip_ws_bounds(s, j);
                let k = skip_ws_spec(s, j);
                if k < s.len() && s[k] == ':' {
                    lemma_skip_ws_bounds(s, k + 1);
                    let l = skip_ws_spec(s, k + 1);
                    lemma_parse_member_value_bounds(s, l, key, acc);
                    match parse_member_value_spec(s, l, key, acc) {
                        Some((acc2, m)) => {
                            lemma_skip_ws_bounds(s, m);
                            let n = skip_ws_spec(s, m);
                            if n < s.len() && s[n] == ',' {
                                lemma_skip_ws_bounds(s, n + 1);
                            }
                        },
                        None => {},
                    }
                }
            },
            None => {},
        }
    }
}

proof fn lemma_parse_members_bounds(s: Seq<char>, i: int, acc: EnvAccView)
    requires
        0 <= i <= s.len(),
    ensures
        parse_members_spec(s, i, acc) matches Some(p) ==> i < p.1 <= s.len(),
    decreases s.len() - i,
{
    if i < s.len() && s[i] == '"' {
        lemma_parse_string_body_bounds(s, i + 1);
        match parse_string_body_spec(s, i + 1) {
            Some((key, j)) => {
                lemma_skip_ws_bounds(s, j);
                let k = skip_ws_spec(s, j);
                if k < s.len() && s[k] == ':' {
                    lemma_skip_ws_bounds(s, k + 1);
                    let l = skip_ws_spec(s, k + 1);
                    lemma_parse_member_value_bounds(s, l, key, acc);
                    match parse_member_value_spec(s, l, key, acc) {
                        Some((acc2, m)) => {
                            lemma_skip_ws_bounds(s, m);
                            let n = skip_ws_spec(s, m);
                            if n < s.len() && s[n] == ',' {
                                lemma_skip_ws_bounds(s, n + 1);
                                let p = skip_ws_spec(s, n + 1);
                                lemma_parse_members_bounds(s, p, acc2);
                            }
                        },
                        None => {},
                    }
                }
            },
            None => {},
        }
    }
}

/// An entire envelope: one JSON object, surrounded by whitespace only,
/// with a `messageType` member present.
pub open spec fn parse_envelope_spec(s: Seq<char>) -> Option<WebSocketMessageView> {
    let i = skip_ws_spec(s, 0);
    if i < s.len() && s[i] == '{' {
        let j = skip_ws_spec(s, i + 1);
        if j < s.len() && s[j] == '}' {
            None  // an empty object has no messageType
        } else {
            match parse_members_spec(
                s,
                j,
                EnvAccView { mt: None, seen_da: false, da: None, seen_d: false, d: None },
            ) {
                Some((acc, k)) => {
                    if skip_ws_spec(s, k) == s.len() {
                        match acc.mt {
                            Some(t) => Some(
                                WebSocketMessageView {
                                    message_type: t,
                                    data_array: acc.da,
                                    data: acc.d,
                                },
                            ),
                            None => None,
                        }
                    } else {
                        None
                    }
                },
                None => None,
            }
        }
    } else {
        None
    }
}

/// The key of a payload's sender member.
pub open spec fn from_key() -> Seq<char> {
    "from"@
}

/// The key of a payload's text member.
pub open spec fn message_key() -> Seq<char> {
    "message"@
}

/// What has been seen of a message payload while its members are parsed.
pub struct MsgAccView {
    pub from: Option<Seq<char>>,
    pub message: Option<Seq<char>>,
}

/// One payload member's value from position `i`: both `from` and
/// `message` take a string. A repeated or unknown key is refused.
pub open spec fn parse_msg_member_value_spec(
    s: Seq<char>,
    i: int,
    key: Seq<char>,
    acc: MsgAccView,
) -> Option<(MsgAccView, int)>
    recommends
        0 <= i <= s.len(),
{
    if key == from_key() {
        if acc.from is Some {
            None
        } else if i < s.len() && s[i] == '"' {
            match parse_string_body_spec(s, i + 1) {
                Some((x, j)) => Some((MsgAccView { from: Some(x), message: acc.message }, j)),
                None => None,
            }
        } else {
            None
        }
    } else if key == message_key() {
        if acc.message is Some {
            None
        } else if i < s.len() && s[i] == '"' {
            match parse_string_body_spec(s, i + 1) {
                Some((x, j)) => Some((MsgAccView { from: acc.from, message: Some(x) }, j)),
                None => None,
            }
        } else {
            None
        }
    } else {
        None
    }
}

proof fn lemma_parse_msg_member_value_bounds(s: Seq<char>, i: int, key: Seq<char>, acc: MsgAccView)
    requires
        0 <= i <= s.len(),
    ensures
        parse_msg_member_value_spec(s, i, key, acc) matches Some(p) ==> i < p.1 <= s.len(),
{
    if i < s.len() && s[i] == '"' {
        lemma_parse_string_body_bounds(s, i + 1);
    }
}

/// The members of a payload object from position `i` (at a key
/// string), through the closing brace.
pub open spec fn parse_msg_members_spec(s: Seq<char>, i: int, acc: MsgAccView) -> Option<
    (MsgAccView, int),
>
    decreases s.len() - i,
    when 0 <= i <= s.len()
    via parse_msg_members_decreases
{
    if i < s.len() && s[i] == '"' {
        match parse_string_body_spec(s, i + 1) {
            Some((key, j)) => {
                let k = skip_ws_spec(s, j);
                if k < s.len() && s[k] == ':' {
                    let l = skip_ws_spec(s, k + 1);
                    match parse_msg_member_value_spec(s, l, key, acc) {
                        Some((acc2, m)) => {
                            let n = skip_ws_spec(s, m);
                            if n < s.len() && s[n] == '}' {
                                Some((acc2, n + 1))
                            } else if n < s.len() && s[n] == ',' {
                                let p = skip_ws_spec(s, n + 1);
                                parse_msg_members_spec(s, p, acc2)
                            } else {
                                None
                            }
                        },
                        None => None,
                    }
                } else {
                    None
                }
            },
            None => None,
        }
    } else {
        None
    }
}

#[via_fn]
proof fn parse_msg_members_decreases(s: Seq<char>, i: int, acc: MsgAccView) {
    if i < s.len() && s[i] == '"' {
        lemma_parse_string_body_bounds(s, i + 1);
        match parse_string_body_spec(s, i + 1) {
            Some((key, j)) => {
                lemma_skip_ws_bounds(s, j);
                let k = skip_ws_spec(s, j);
                if k < s.len() && s[k] == ':' {
                    lemma_skip_ws_bounds(s, k + 1);
                    let l = skip_ws_spec(s, k + 1);
                    lemma_parse_msg_member_value_bounds(s, l, key, acc);
                    match parse_msg_member_value_spec(s, l, key, acc) {
                        Some((acc2, m)) => {
                            lemma_skip_ws_bounds(s, m);
                            let n = skip_ws_spec(s, m);
                            if n < s.len() && s[n] == ',' {
                                lemma_skip_ws_bounds(s, n + 1);
                            }
                        },
                        None => {},
                    }
                }
            },
            None => {},
        }
    }
}

proof fn lemma_parse_msg_members_bounds(s: Seq<char>, i: int, acc: MsgAccView)
    requires
        0 <= i <= s.len(),
    ensures
        parse_msg_members_spec(s, i, acc) matches Some(p) ==> i < p.1 <= s.len(),
    decreases s.len() - i,
{
    if i < s.len() && s[i] == '"' {
        lemma_parse_string_body_bounds(s, i + 1);
        match parse_string_body_spec(s, i + 1) {
            Some((key, j)) => {
                lemma_skip_ws_bounds(s, j);
                let k = skip_ws_spec(s, j);
                if k < s.len() && s[k] == ':' {
                    lemma_skip_ws_bounds(s, k + 1);
                    let l = skip_ws_spec(s, k + 1);
                    lemma_parse_msg_member_value_bounds(s, l, key, acc);
                    match parse_msg_member_value_spec(s, l, key, acc) {
                        Some((acc2, m)) => {
                            lemma_skip_ws_bounds(s, m);
                            let n = skip_ws_spec(s, m);
                            if n < s.len() && s[n] == ',' {
                                lemma_skip_ws_bounds(s, n + 1);
                                let p = skip_ws_spec(s, n + 1);
                                lemma_parse_msg_members_bounds(s, p, acc2);
                            }
                        },
                        None => {},
                    }
                }
            },
            None => {},
        }
    }
}

/// An entire message payload: one JSON object, surrounded by
/// whitespace only, with both `from` and `message` present.
pub open spec fn parse_message_data_spec(s: Seq<char>) -> Option<MessageDataView> {
    let i = skip_ws_spec(s, 0);
    if i < s.len() && s[i] == '{' {
        let j = skip_ws_spec(s, i + 1);
        if j < s.len() && s[j] == '}' {
            None  // an empty object has neither member
        } else {
            match parse_msg_members_spec(s, j, MsgAccView { from: None, message: None }) {
                Some((acc, k)) => {
                    if skip_ws_spec(s, k) == s.len() {
                        match (acc.from, acc.message) {
                            (Some(f), Some(m)) => Some(MessageDataView { from: f, message: m }),
                            _ => None,
                        }
                    } else {
                        None
                    }
                },
                None => None,
            }
        }
    } else {
        None
    }
}

// ---------------------------------------------------------------------
// The encoder.
// ---------------------------------------------------------------------

/// Digit `n` as a lowercase hexadecimal character.
fn hex_lower_char(n: u32) -> (c: char)
    requires
        n < 16,
    ensures
        c == hex_lower(n as int),
{
    if n == 0 {
        '0'
    } else if n == 1 {
        '1'
    } else if n == 2 {
        '2'
    } else if n == 3 {
        '3'
    } else if n == 4 {
        '4'
    } else if n == 5 {
        '5'
    } else if n == 6 {
        '6'
    } else if n == 7 {
        '7'
    } else if n == 8 {
        '8'
    } else if n == 9 {
        '9'
    } else if n == 10 {
        'a'
    } else if n == 11 {
        'b'
    } else if n == 12 {
        'c'
    } else if n == 13 {
        'd'
    } else if n == 14 {
        'e'
    } else {
        'f'
    }
}

/// Appends the escaped form of one character.
fn push_escape_char(out: &mut Vec<char>, c: char)
    ensures
        final(out)@ == old(out)@ + escape_char(c),
{
    if c == '"' {
        out.push('\\');
        out.push('"');
    } else if c == '\\' {
        out.push('\\');
        out.push('\\');
    } else if c == '\u{08}' {
        out.push('\\');
        out.push('b');
    } else if c == '\u{0C}' {
        out.push('\\');
        out.push('f');
    } else if c == '\n' {
        out.push('\\');
        out.push('n');
    } else if c == '\r' {
        out.push('\\');
        out.push('r');
    } else if c == '\t' {
        out.push('\\');
        out.push('t');
    } else if (c as u32) < 0x20 {
        let u = c as u32;
        out.push('\\');
        out.push('u');
        out.push('0');
        out.push('0');
        out.push(hex_lower_char(u / 16));
        out.push(hex_lower_char(u % 16));
    } else {
        out.push(c);
    }
    proof {
        assert(final(out)@ =~= old(out)@ + escape_char(c));
    }
}

/// Appends the escaped form of the characters of `s` from position `i` on.
fn push_escaped(s: &Vec<char>, i: usize, out: &mut Vec<char>)
    requires
        i <= s@.len(),
    ensures
        final(out)@ == old(out)@ + escape_string(s@.skip(i as int)),
    decreases s@.len() - i,
{
    if i < s.len() {
        push_escape_char(out, s[i]);
        push_escaped(s, i + 1, out);
        proof {
            assert(s@.skip(i as int).drop_first() =~= s@.skip(i + 1 as int));
            assert(final(out)@ =~= old(out)@ + escape_string(s@.skip(i as int)));
        }
    } else {
        proof {
            assert(s@.skip(i as int) =~= Seq::<char>::empty());
        }
    }
}

/// Appends `s` as a JSON string token.
fn push_quoted(out: &mut Vec<char>, s: &str)
    ensures
        final(out)@ == old(out)@ + quoted(s@),
{
    let chars = str_chars(s);
    out.push('"');
    push_escaped(&chars, 0, out);
    out.push('"');
    proof {
        assert(chars@.skip(0) =~= chars@);
        assert(final(out)@ =~= old(out)@ + quoted(s@));
    }
}

/// Appends an optional string as a JSON value: the string token, or `null`.
fn push_opt_string(out: &mut Vec<char>, o: &Option<String>)
    ensures
        final(out)@ == old(out)@ + opt_string_text(
            match o {
                Some(s) => Some(s@),
                None => None,
            },
        ),
{
    match o {
        Some(s) => {
            push_quoted(out, s.as_str());
        },
        None => {
            push_str_chars(out, "null");
            proof {
                reveal_strlit("null");
                assert("null"@ =~= null_text());
            }
        },
    }
}

/// Appends the elements of `a` from position `i` on, each preceded by
/// a comma.
fn push_strings_items(a: &Vec<String>, i: usize, out: &mut Vec<char>)
    requires
        i <= a@.len(),
    ensures
        final(out)@ == old(out)@ + strings_items(a.deep_view().skip(i as int)),
    decreases a@.len() - i,
{
    if i < a.len() {
        out.push(',');
        push_quoted(out, a[i].as_str());
        push_strings_items(a, i + 1, out);
        proof {
            assert(a.deep_view()[i as int] == a@[i as int]@);
            assert(a.deep_view().skip(i as int).drop_first() =~= a.deep_view().skip(i + 1 as int));
            assert(a.deep_view().skip(i as int)[0] == a@[i as int]@);
            assert(final(out)@ =~= old(out)@ + strings_items(a.deep_view().skip(i as int)));
        }
    } else {
        proof {
            assert(a.deep_view().skip(i as int) =~= Seq::<Seq<char>>::empty());
        }
    }
}

/// Appends a string array as a JSON array token.
fn push_strings_array(out: &mut Vec<char>, a: &Vec<String>)
    ensures
        final(out)@ == old(out)@ + strings_array_text(a.deep_view()),
{
    out.push('[');
    if a.len() > 0 {
        push_quoted(out, a[0].as_str());
        push_strings_items(a, 1, out);
        proof {
            assert(a.deep_view()[0] == a@[0]@);
            assert(a.deep_view().skip(1) =~= a.deep_view().drop_first());
        }
    }
    out.push(']');
    proof {
        if a@.len() == 0 {
            assert(a.deep_view().len() == 0);
            assert(final(out)@ =~= old(out)@ + strings_array_text(a.deep_view()));
        } else {
            assert(final(out)@ =~= old(out)@ + strings_array_text(a.deep_view()));
        }
    }
}

// ---------------------------------------------------------------------
// The decoder.
// ---------------------------------------------------------------------

/// Relies on `char::from_u32`: it returns `Some` exactly for the code
/// points below 0x110000 that are not surrogates, and then the
/// character with that code.
pub assume_specification[ char::from_u32 ](i: u32) -> (r: Option<char>)
    ensures
        r is Some <==> (i < 0xD800 || (0xE000 <= i && i < 0x110000)),
        r matches Some(c) ==> c == (i as char) && c as u32 == i,
;

/// The first position at or after `i` holding no whitespace.
fn skip_ws(v: &Vec<char>, i: usize) -> (r: usize)
    requires
        i <= v@.len(),
    ensures
        r as int == skip_ws_spec(v@, i as int),
        i <= r <= v@.len(),
{
    let mut j = i;
    while j < v.len() && (v[j] == ' ' || v[j] == '\t' || v[j] == '\n' || v[j] == '\r')
        invariant
            i <= j <= v@.len(),
            skip_ws_spec(v@, i as int) == skip_ws_spec(v@, j as int),
        decreases v@.len() - j,
    {
        j = j + 1;
    }
    j
}

/// The value of a hexadecimal digit.
fn hex_digit(c: char) -> (r: Option<u32>)
    ensures
        r is Some <==> hex_val(c) >= 0,
        r matches Some(h) ==> h == hex_val(c) && h < 16,
{
    let u = c as u32;
    if 0x30 <= u && u <= 0x39 {
        Some(u - 0x30)
    } else if 0x61 <= u && u <= 0x66 {
        Some(u - 0x61 + 10)
    } else if 0x41 <= u && u <= 0x46 {
        Some(u - 0x41 + 10)
    } else {
        None
    }
}

/// Decodes the body of a JSON string starting at `i` (just after the
/// opening quote), appending its content to `out`; returns the
/// position after the closing quote.
fn parse_string_body(v: &Vec<char>, i: usize, out: &mut Vec<char>) -> (r: Option<usize>)
    requires
        i <= v@.len(),
    ensures
        r matches Some(j) ==> {
            &&& parse_string_body_spec(v@, i as int) is Some
            &&& final(out)@ == old(out)@ + parse_string_body_spec(v@, i as int)->Some_0.0
            &&& j as int == parse_string_body_spec(v@, i as int)->Some_0.1
            &&& i < j <= v@.len()
        },
        r is None ==> parse_string_body_spec(v@, i as int) is None,
    decreases v@.len() - i,
{
    if i >= v.len() {
        return None;
    }
    let c = v[i];
    if c == '"' {
        proof {
            assert(out@ =~= out@ + Seq::<char>::empty());
        }
        Some(i + 1)
    } else if c == '\\' {
        if i + 1 >= v.len() {
            return None;
        }
        let e = v[i + 1];
        if e == '"' || e == '\\' || e == '/' || e == 'b' || e == 'f' || e == 'n' || e == 'r' || e
            == 't' {
            let u = if e == 'b' {
                '\u{08}'
            } else if e == 'f' {
                '\u{0C}'
            } else if e == 'n' {
                '\n'
            } else if e == 'r' {
                '\r'
            } else if e == 't' {
                '\t'
            } else {
                e
            };
            out.push(u);
            match parse_string_body(v, i + 2, out) {
                Some(j) => {
                    proof {
                        assert(final(out)@ =~= old(out)@ + (seq![unescape_simple(e)]
                            + parse_string_body_spec(v@, i + 2 as int)->Some_0.0));
                    }
                    Some(j)
                },
                None => None,
            }
        } else if e == 'u' {
            if v.len() - i < 6 {
                return None;
            }
            match (hex_digit(v[i + 2]), hex_digit(v[i + 3]), hex_digit(v[i + 4]), hex_digit(
                v[i + 5],
            )) {
                (Some(h1), Some(h2), Some(h3), Some(h4)) => {
                    let code: u32 = h1 * 4096 + h2 * 256 + h3 * 16 + h4;
                    if 0xD800 <= code && code <= 0xDFFF {
                        return None;
                    }
                    let ch = match char::from_u32(code) {
                        Some(ch) => ch,
                        None => vstd::pervasive::unreached(),
                    };
                    out.push(ch);
                    match parse_string_body(v, i + 6, out) {
                        Some(j) => {
                            proof {
                                assert(final(out)@ =~= old(out)@ + (seq![ch]
                                    + parse_string_body_spec(v@, i + 6 as int)->Some_0.0));
                            }
                            Some(j)
                        },
                        None => None,
                    }
                },
                _ => None,
            }
        } else {
            None
        }
    } else if (c as u32) < 0x20 {
        None
    } else {
        out.push(c);
        match parse_string_body(v, i + 1, out) {
            Some(j) => {
                proof {
                    assert(final(out)@ =~= old(out)@ + (seq![c] + parse_string_body_spec(
                        v@,
                        i + 1 as int,
                    )->Some_0.0));
                }
                Some(j)
            },
            None => None,
        }
    }
}

/// Decodes the elements of a string array after the first, from
/// position `i` (just after a string), appending them to `out`;
/// returns the position after the closing bracket.
fn parse_array_rest(v: &Vec<char>, i: usize, out: &mut Vec<String>) -> (r: Option<usize>)
    requires
        i <= v@.len(),
    ensures
        r matches Some(j) ==> {
            &&& parse_array_rest_spec(v@, i as int) is Some
            &&& final(out).deep_view() == old(out).deep_view() + parse_array_rest_spec(
                v@,
                i as int,
            )->Some_0.0
            &&& j as int == parse_array_rest_spec(v@, i as int)->Some_0.1
            &&& i < j <= v@.len()
        },
        r is None ==> parse_array_rest_spec(v@, i as int) is None,
    decreases v@.len() - i,
{
    let j = skip_ws(v, i);
    if j < v.len() && v[j] == ']' {
        proof {
            assert(out.deep_view() =~= out.deep_view() + Seq::<Seq<char>>::empty());
        }
        Some(j + 1)
    } else if j < v.len() && v[j] == ',' {
        let k = skip_ws(v, j + 1);
        if k < v.len() && v[k] == '"' {
            let mut content: Vec<char> = Vec::new();
            match parse_string_body(v, k + 1, &mut content) {
                Some(l) => {
                    let s = chars_to_string(&content);
                    let ghost prior = out.deep_view();
                    let ghost x = parse_string_body_spec(v@, k + 1 as int)->Some_0.0;
                    out.push(s);
                    proof {
                        assert(content@ =~= x);
                        assert(out.deep_view() =~= prior + seq![x]);
                    }
                    match parse_array_rest(v, l, out) {
                        Some(m) => {
                            proof {
                                assert(final(out).deep_view() =~= prior + (seq![x]
                                    + parse_array_rest_spec(v@, l as int)->Some_0.0));
                            }
                            Some(m)
                        },
                        None => None,
                    }
                },
                None => None,
            }
        } else {
            None
        }
    } else {
        None
    }
}

/// Decodes a string array from position `i` (just after the opening
/// bracket), appending its elements to `out`; returns the position
/// after the closing bracket.
fn parse_array(v: &Vec<char>, i: usize, out: &mut Vec<String>) -> (r: Option<usize>)
    requires
        i <= v@.len(),
    ensures
        r matches Some(j) ==> {
            &&& parse_array_spec(v@, i as int) is Some
            &&& final(out).deep_view() == old(out).deep_view() + parse_array_spec(
                v@,
                i as int,
            )->Some_0.0
            &&& j as int == parse_array_spec(v@, i as int)->Some_0.1
            &&& i < j <= v@.len()
        },
        r is None ==> parse_array_spec(v@, i as int) is None,
{
    let j = skip_ws(v, i);
    if j < v.len() && v[j] == ']' {
        proof {
            assert(out.deep_view() =~= out.deep_view() + Seq::<Seq<char>>::empty());
        }
        Some(j + 1)
    } else if j < v.len() && v[j] == '"' {
        let mut content: Vec<char> = Vec::new();
        match parse_string_body(v, j + 1, &mut content) {
            Some(k) => {
                let s = chars_to_string(&content);
                let ghost prior = out.deep_view();
                let ghost x = parse_string_body_spec(v@, j + 1 as int)->Some_0.0;
                out.push(s);
                proof {
                    assert(content@ =~= x);
                    assert(out.deep_view() =~= prior + seq![x]);
                }
                match parse_array_rest(v, k, out) {
                    Some(l) => {
                        proof {
                            assert(final(out).deep_view() =~= prior + (seq![x]
                                + parse_array_rest_spec(v@, k as int)->Some_0.0));
                        }
                        Some(l)
                    },
                    None => None,
                }
            },
            None => None,
        }
    } else {
        None
    }
}

/// Whether the `null` literal stands at position `i`.
fn at_null_exec(v: &Vec<char>, i: usize) -> (r: bool)
    requires
        i <= v@.len(),
    ensures
        r == at_null(v@, i as int),
{
    v.len() - i >= 4 && v[i] == 'n' && v[i + 1] == 'u' && v[i + 2] == 'l' && v[i + 3] == 'l'
}

/// What has been seen of an envelope while its members are parsed.
struct EnvAcc {
    mt: Option<MsgTypes>,
    seen_da: bool,
    da: Option<Vec<String>>,
    seen_d: bool,
    d: Option<String>,
}

impl View for EnvAcc {
    type V = EnvAccView;

    closed spec fn view(&self) -> EnvAccView {
        EnvAccView {
            mt: self.mt,
            seen_da: self.seen_da,
            da: match self.da {
                Some(a) => Some(a.deep_view()),
                None => None,
            },
            seen_d: self.seen_d,
            d: match self.d {
                Some(s) => Some(s@),
                None => None,
            },
        }
    }
}

/// Decodes one envelope member's value from position `i`, dispatched
/// on the member's key.
fn parse_member_value(v: &Vec<char>, i: usize, key: &Vec<char>, acc: EnvAcc) -> (r: Option<
    (EnvAcc, usize),
>)
    requires
        i <= v@.len(),
    ensures
        r matches Some(p) ==> {
            &&& parse_member_value_spec(v@, i as int, key@, acc@) is Some
            &&& p.0@ == parse_member_value_spec(v@, i as int, key@, acc@)->Some_0.0
            &&& p.1 as int == parse_member_value_spec(v@, i as int, key@, acc@)->Some_0.1
            &&& i < p.1 <= v@.len()
        },
        r is None ==> parse_member_value_spec(v@, i as int, key@, acc@) is None,
{
    if chars_eq_str(key, "messageType") {
        if acc.mt.is_some() {
            return None;
        }
        if i < v.len() && v[i] == '"' {
            let mut content: Vec<char> = Vec::new();
            match parse_string_body(v, i + 1, &mut content) {
                Some(j) => {
                    let t = if chars_eq_str(&content, "users") {
                        Some(MsgTypes::Users)
                    } else if chars_eq_str(&content, "register") {
                        Some(MsgTypes::Register)
                    } else if chars_eq_str(&content, "message") {
                        Some(MsgTypes::Message)
                    } else {
                        None
                    };
                    match t {
                        Some(t) => Some(
                            (
                                EnvAcc {
                                    mt: Some(t),
                                    seen_da: acc.seen_da,
                                    da: acc.da,
                                    seen_d: acc.seen_d,
                                    d: acc.d,
                                },
                                j,
                            ),
                        ),
                        None => None,
                    }
                },
                None => None,
            }
        } else {
            None
        }
    } else if chars_eq_str(key, "dataArray") {
        if acc.seen_da {
            return None;
        }
        if v.len() - i >= 4 && at_null_exec(v, i) {
            Some(
                (
                    EnvAcc {
                        mt: acc.mt,
                        seen_da: true,
                        da: None,
                        seen_d: acc.seen_d,
                        d: acc.d,
                    },
                    i + 4,
                ),
            )
        } else if i < v.len() && v[i] == '[' {
            let mut arr: Vec<String> = Vec::new();
            match parse_array(v, i + 1, &mut arr) {
                Some(j) => {
                    proof {
                        assert(arr.deep_view() =~= parse_array_spec(v@, i + 1 as int)->Some_0.0);
                    }
                    Some(
                        (
                            EnvAcc {
                                mt: acc.mt,
                                seen_da: true,
                                da: Some(arr),
                                seen_d: acc.seen_d,
                                d: acc.d,
                            },
                            j,
                        ),
                    )
                },
                None => None,
            }
        } else {
            None
        }
    } else if chars_eq_str(key, "data") {
        if acc.seen_d {
            return None;
        }
        if v.len() - i >= 4 && at_null_exec(v, i) {
            Some(
                (
                    EnvAcc {
                        mt: acc.mt,
                        seen_da: acc.seen_da,
                        da: acc.da,
                        seen_d: true,
                        d: None,
                    },
                    i + 4,
                ),
            )
        } else if i < v.len() && v[i] == '"' {
            let mut content: Vec<char> = Vec::new();
            match parse_string_body(v, i + 1, &mut content) {
                Some(j) => {
                    let s = chars_to_string(&content);
                    Some(
                        (
                            EnvAcc {
                                mt: acc.mt,
                                seen_da: acc.seen_da,
                                da: acc.da,
                                seen_d: true,
                                d: Some(s),
                            },
                            j,
                        ),
                    )
                },
                None => None,
            }
        } else {
            None
        }
    } else {
        None
    }
}

/// Decodes the members of an envelope object from position `i` (at a
/// key string), through the closing brace.
fn parse_members(v: &Vec<char>, i: usize, acc: EnvAcc) -> (r: Option<(EnvAcc, usize)>)
    requires
        i <= v@.len(),
    ensures
        r matches Some(p) ==> {
            &&& parse_members_spec(v@, i as int, acc@) is Some
            &&& p.0@ == parse_members_spec(v@, i as int, acc@)->Some_0.0
            &&& p.1 as int == parse_members_spec(v@, i as int, acc@)->Some_0.1
            &&& i < p.1 <= v@.len()
        },
        r is None ==> parse_members_spec(v@, i as int, acc@) is None,
    decreases v@.len() - i,
{
    if i < v.len() && v[i] == '"' {
        let mut key: Vec<char> = Vec::new();
        match parse_string_body(v, i + 1, &mut key) {
            Some(j) => {
                proof {
                    assert(key@ =~= parse_string_body_spec(v@, i + 1 as int)->Some_0.0);
                }
                let k = skip_ws(v, j);
                if k < v.len() && v[k] == ':' {
                    let l = skip_ws(v, k + 1);
                    match parse_member_value(v, l, &key, acc) {
                        Some((acc2, m)) => {
                            let n = skip_ws(v, m);
                            if n < v.len() && v[n] == '}' {
                                Some((acc2, n + 1))
                            } else if n < v.len() && v[n] == ',' {
                                let p = skip_ws(v, n + 1);
                                parse_members(v, p, acc2)
                            } else {
                                None
                            }
                        },
                        None => None,
                    }
                } else {
                    None
                }
            },
            None => None,
        }
    } else {
        None
    }
}

/// Decodes a whole frame as an envelope; `None` on any text outside
/// the accepted grammar.
pub fn decode_envelope(frame: &str) -> (r: Option<WebSocketMessage>)
    ensures
        r matches Some(e) ==> parse_envelope_spec(frame@) == Some(e@),
        r is Some <==> parse_envelope_spec(frame@) is Some,
{
    let v = str_chars(frame);
    let i = skip_ws(&v, 0);
    if i < v.len() && v[i] == '{' {
        let j = skip_ws(&v, i + 1);
        if j < v.len() && v[j] == '}' {
            None
        } else {
            let acc0 = EnvAcc { mt: None, seen_da: false, da: None, seen_d: false, d: None };
            match parse_members(&v, j, acc0) {
                Some((acc, k)) => {
                    if skip_ws(&v, k) == v.len() {
                        match acc.mt {
                            Some(t) => {
                                let e = WebSocketMessage {
                                    message_type: t,
                                    data_array: acc.da,
                                    data: acc.d,
                                };
                                Some(e)
                            },
                            None => None,
                        }
                    } else {
                        None
                    }
                },
                None => None,
            }
        }
    } else {
        None
    }
}

/// What has been seen of a payload while its members are parsed.
struct MsgAcc {
    from: Option<String>,
    message: Option<String>,
}

impl View for MsgAcc {
    type V = MsgAccView;

    closed spec fn view(&self) -> MsgAccView {
        MsgAccView {
            from: match self.from {
                Some(s) => Some(s@),
                None => None,
            },
            message: match self.message {
                Some(s) => Some(s@),
                None => None,
            },
        }
    }
}

/// Decodes one payload member's value from position `i`, dispatched on
/// the member's key.
fn parse_msg_member_value(v: &Vec<char>, i: usize, key: &Vec<char>, acc: MsgAcc) -> (r: Option<
    (MsgAcc, usize),
>)
    requires
        i <= v@.len(),
    ensures
        r matches Some(p) ==> {
            &&& parse_msg_member_value_spec(v@, i as int, key@, acc@) is Some
            &&& p.0@ == parse_msg_member_value_spec(v@, i as int, key@, acc@)->Some_0.0
            &&& p.1 as int == parse_msg_member_value_spec(v@, i as int, key@, acc@)->Some_0.1
            &&& i < p.1 <= v@.len()
        },
        r is None ==> parse_msg_member_value_spec(v@, i as int, key@, acc@) is None,
{
    if chars_eq_str(key, "from") {
        if acc.from.is_some() {
            return None;
        }
        if i < v.len() && v[i] == '"' {
            let mut content: Vec<char> = Vec::new();
            match parse_string_body(v, i + 1, &mut content) {
                Some(j) => {
                    let s = chars_to_string(&content);
                    Some((MsgAcc { from: Some(s), message: acc.message }, j))
                },
                None => None,
            }
        } else {
            None
        }
    } else if chars_eq_str(key, "message") {
        if acc.message.is_some() {
            return None;
        }
        if i < v.len() && v[i] == '"' {
            let mut content: Vec<char> = Vec::new();
            match parse_string_body(v, i + 1, &mut content) {
                Some(j) => {
                    let s = chars_to_string(&content);
                    Some((MsgAcc { from: acc.from, message: Some(s) }, j))
                },
                None => None,
            }
        } else {
            None
        }
    } else {
        None
    }
}

/// Decodes the members of a payload object from position `i` (at a key
/// string), through the closing brace.
fn parse_msg_members(v: &Vec<char>, i: usize, acc: MsgAcc) -> (r: Option<(MsgAcc, usize)>)
    requires
        i <= v@.len(),
    ensures
        r matches Some(p) ==> {
            &&& parse_msg_members_spec(v@, i as int, acc@) is Some
            &&& p.0@ == parse_msg_members_spec(v@, i as int, acc@)->Some_0.0
            &&& p.1 as int == parse_msg_members_spec(v@, i as int, acc@)->Some_0.1
            &&& i < p.1 <= v@.len()
        },
        r is None ==> parse_msg_members_spec(v@, i as int, acc@) is None,
    decreases v@.len() - i,
{
    if i < v.len() && v[i] == '"' {
        let mut key: Vec<char> = Vec::new();
        match parse_string_body(v, i + 1, &mut key) {
            Some(j) => {
                proof {
                    assert(key@ =~= parse_string_body_spec(v@, i + 1 as int)->Some_0.0);
                }
                let k = skip_ws(v, j);
                if k < v.len() && v[k] == ':' {
                    let l = skip_ws(v, k + 1);
                    match parse_msg_member_value(v, l, &key, acc) {
                        Some((acc2, m)) => {
                            let n = skip_ws(v, m);
                            if n < v.len() && v[n] == '}' {
                                Some((acc2, n + 1))
                            } else if n < v.len() && v[n] == ',' {
                                let p = skip_ws(v, n + 1);
                                parse_msg_members(v, p, acc2)
                            } else {
                                None
                            }
                        },
                        None => None,
                    }
                } else {
                    None
                }
            },
            None => None,
        }
    } else {
        None
    }
}

/// Decodes a `data` field as a message payload; `None` on any text
/// outside the accepted grammar.
pub fn decode_message_data(s: &str) -> (r: Option<MessageData>)
    ensures
        r matches Some(m) ==> parse_message_data_spec(s@) == Some(m@),
        r is Some <==> parse_message_data_spec(s@) is Some,
{
    let v = str_chars(s);
    let i = skip_ws(&v, 0);
    if i < v.len() && v[i] == '{' {
        let j = skip_ws(&v, i + 1);
        if j < v.len() && v[j] == '}' {
            None
        } else {
            let acc0 = MsgAcc { from: None, message: None };
            match parse_msg_members(&v, j, acc0) {
                Some((acc, k)) => {
                    if skip_ws(&v, k) == v.len() {
                        match (acc.from, acc.message) {
                            (Some(f), Some(m)) => Some(MessageData { from: f, message: m }),
                            _ => None,
                        }
                    } else {
                        None
                    }
                },
                None => None,
            }
        }
    } else {
        None
    }
}

/// The wire text of an envelope.
pub fn encode_envelope(e: &WebSocketMessage) -> (s: String)
    ensures
        s@ == envelope_text(e@),
{
    let mut out: Vec<char> = Vec::new();
    push_str_chars(&mut out, "{\"messageType\":\"");
    match e.message_type {
        MsgTypes::Users => push_str_chars(&mut out, "users"),
        MsgTypes::Register => push_str_chars(&mut out, "register"),
        MsgTypes::Message => push_str_chars(&mut out, "message"),
    }
    push_str_chars(&mut out, "\",\"dataArray\":");
    match &e.data_array {
        Some(a) => push_strings_array(&mut out, a),
        None => {
            push_str_chars(&mut out, "null");
            proof {
                reveal_strlit("null");
                assert("null"@ =~= null_text());
            }
        },
    }
    push_str_chars(&mut out, ",\"data\":");
    push_opt_string(&mut out, &e.data);
    push_str_chars(&mut out, "}");
    proof {
        assert(out@ =~= envelope_text(e@));
    }
    chars_to_string(&out)
}

/// The wire text of a message payload.
pub fn encode_message_data(m: &MessageData) -> (s: String)
    ensures
        s@ == message_data_text(m@),
{
    let mut out: Vec<char> = Vec::new();
    push_str_chars(&mut out, "{\"from\":");
    push_quoted(&mut out, m.from.as_str());
    push_str_chars(&mut out, ",\"message\":");
    push_quoted(&mut out, m.message.as_str());
    push_str_chars(&mut out, "}");
    proof {
        assert(out@ =~= message_data_text(m@));
    }
    chars_to_string(&out)
}


// ---------------------------------------------------------------------
// The encoder and the decoder agree: canonical text parses back to
// exactly the record it encodes.
// ---------------------------------------------------------------------

/// A plain string character: one that stands as itself when escaped.
pub open spec fn is_plain(c: char) -> bool {
    c != '"' && c != '\\' && (c as u32) >= 0x20
}

/// Escaping a sequence of plain characters leaves it unchanged.
proof fn lemma_escape_plain(s: Seq<char>)
    requires
        forall|k: int| 0 <= k < s.len() ==> is_plain(#[trigger] s[k]),
    ensures
        escape_string(s) == s,
    decreases s.len(),
{
    if s.len() > 0 {
        lemma_escape_plain(s.drop_first());
        assert(escape_char(s[0]) =~= seq![s[0]]);
        assert(escape_char(s[0]) + s.drop_first() =~= s);
    }
}

/// Lowercase hex digits read back as their value.
proof fn lemma_hex_lower_val(n: int)
    requires
        0 <= n < 16,
    ensures
        hex_val(hex_lower(n)) == n,
{
}

/// The escaped form of `content`, a closing quote, and any text after
/// parse back to exactly `content`.
proof fn lemma_parse_escaped(s: Seq<char>, i: int, content: Seq<char>, tail: Seq<char>)
    requires
        0 <= i <= s.len(),
        s.skip(i) == escape_string(content) + seq!['"'] + tail,
    ensures
        parse_string_body_spec(s, i) == Some((content, i + escape_string(content).len() + 1)),
    decreases content.len(),
{
    broadcast use vstd::utf8::char_u32_cast;

    let esc = escape_string(content);
    assert(s.skip(i).len() == s.len() - i);
    if content.len() == 0 {
        assert(esc =~= Seq::<char>::empty());
        assert(s.skip(i)[0] == (esc + seq!['"'] + tail)[0]);
        assert(s[i] == '"');
        assert(parse_string_body_spec(s, i) == Some((Seq::<char>::empty(), i + 1)));
        assert(Seq::<char>::empty() =~= content);
    } else {
        let c = content[0];
        let rest = content.drop_first();
        let ec = escape_char(c);
        assert(esc == ec + escape_string(rest));
        let m = ec.len() as int;
        assert(m >= 1);
        assert(i + m <= s.len());
        assert(s.skip(i + m) =~= escape_string(rest) + seq!['"'] + tail) by {
            assert forall|k: int| 0 <= k < s.skip(i + m).len() implies s.skip(i + m)[k] == (
            escape_string(rest) + seq!['"'] + tail)[k] by {
                assert(s.skip(i + m)[k] == s[i + m + k]);
                assert(s.skip(i)[m + k] == s[i + m + k]);
                assert(s.skip(i)[m + k] == (esc + seq!['"'] + tail)[m + k]);
            }
        }
        lemma_parse_escaped(s, i + m, rest, tail);
        assert(seq![c] + rest =~= content);
        if c == '"' || c == '\\' || c == '\u{08}' || c == '\u{0C}' || c == '\n' || c == '\r' || c
            == '\t' {
            assert(ec.len() == 2 && ec[0] == '\\' && is_simple_escape(ec[1]) && unescape_simple(
                ec[1],
            ) == c);
            assert(s[i] == ec[0] && s[i + 1] == ec[1]) by {
                assert(s.skip(i)[0] == (esc + seq!['"'] + tail)[0]);
                assert(s.skip(i)[1] == (esc + seq!['"'] + tail)[1]);
                assert(s.skip(i)[0] == s[i]);
                assert(s.skip(i)[1] == s[i + 1]);
            }
            assert(parse_string_body_spec(s, i) == Some(
                (content, i + escape_string(content).len() + 1),
            ));
        } else if (c as u32) < 0x20 {
            let u = (c as u32) as int;
            assert(ec =~= seq!['\\', 'u', '0', '0', hex_lower(u / 16), hex_lower(u % 16)]);
            assert(s[i] == ec[0] && s[i + 1] == ec[1] && s[i + 2] == ec[2] && s[i + 3] == ec[3] && s[
                i + 4] == ec[4] && s[i + 5] == ec[5]) by {
                assert forall|k: int| 0 <= k < 6 implies s[i + k] == ec[k] by {
                    assert(s.skip(i)[k] == (esc + seq!['"'] + tail)[k]);
                    assert(s.skip(i)[k] == s[i + k]);
                }
            }
            assert(!is_simple_escape('u'));
            assert(hex_val('0') == 0);
            lemma_hex_lower_val(u / 16);
            lemma_hex_lower_val(u % 16);
            let code = hex_val(s[i + 2]) * 4096 + hex_val(s[i + 3]) * 256 + hex_val(s[i + 4]) * 16
                + hex_val(s[i + 5]);
            assert(code == u);
            assert(0 <= code < 0x20);
            assert(code as u32 == c as u32);
            vstd::utf8::char_u32_cast(c, code as u32);
            assert((code as u32) as char == c);
            assert(parse_string_body_spec(s, i) == Some(
                (content, i + escape_string(content).len() + 1),
            ));
        } else {
            assert(ec =~= seq![c]);
            assert(s[i] == c) by {
                assert(s.skip(i)[0] == (esc + seq!['"'] + tail)[0]);
                assert(s.skip(i)[0] == s[i]);
            }
            assert(parse_string_body_spec(s, i) == Some(
                (content, i + escape_string(content).len() + 1),
            ));
        }
    }
}


/// The canonical text of a payload parses back to exactly that
/// payload: the encoder and the decoder agree on every record.
#[verifier::rlimit(100)]
pub proof fn lemma_message_data_round_trip(m: MessageDataView)
    ensures
        parse_message_data_spec(message_data_text(m)) == Some(m),
{
    let s = message_data_text(m);
    let ef = escape_string(m.from);
    let em = escape_string(m.message);
    reveal_strlit("{\"from\":");
    reveal_strlit(",\"message\":");
    reveal_strlit("}");
    reveal_strlit("from");
    reveal_strlit("message");
    assert(forall|k: int| 0 <= k < "from"@.len() ==> is_plain(#[trigger] "from"@[k]));
    lemma_escape_plain("from"@);
    assert(forall|k: int| 0 <= k < "message"@.len() ==> is_plain(#[trigger] "message"@[k]));
    lemma_escape_plain("message"@);
    assert(s =~= "{\"from\":"@ + seq!['"'] + ef + seq!['"'] + ",\"message\":"@ + seq!['"'] + em
        + seq!['"'] + "}"@);
    let q: int = 10 + ef.len() as int;
    let end: int = q + 13 + em.len() as int;
    assert(s.len() == end + 1);
    assert(s[0] == '{' && s[1] == '"' && s[7] == ':' && s[8] == '"');
    assert(s[q] == ',' && s[q + 1] == '"' && s[q + 10] == ':' && s[q + 11] == '"');
    assert(s[end] == '}');
    assert(skip_ws_spec(s, 0) == 0);
    assert(skip_ws_spec(s, 1) == 1);
    assert(skip_ws_spec(s, 7) == 7);
    assert(skip_ws_spec(s, 8) == 8);
    assert(skip_ws_spec(s, q) == q);
    assert(skip_ws_spec(s, q + 1) == q + 1);
    assert(skip_ws_spec(s, q + 10) == q + 10);
    assert(skip_ws_spec(s, q + 11) == q + 11);
    assert(skip_ws_spec(s, end) == end);
    assert(skip_ws_spec(s, s.len() as int) == s.len());
    // the member key "from" and its value
    assert(s.skip(2) =~= escape_string("from"@) + seq!['"'] + s.skip(7));
    lemma_parse_escaped(s, 2, "from"@, s.skip(7));
    assert(parse_string_body_spec(s, 2) == Some(("from"@, 7int)));
    assert(s.skip(9) =~= ef + seq!['"'] + s.skip(q));
    lemma_parse_escaped(s, 9, m.from, s.skip(q));
    assert(parse_string_body_spec(s, 9) == Some((m.from, q)));
    // the member key "message" and its value
    assert(s.skip(q + 2) =~= escape_string("message"@) + seq!['"'] + s.skip(q + 10));
    lemma_parse_escaped(s, q + 2, "message"@, s.skip(q + 10));
    assert(parse_string_body_spec(s, q + 2) == Some(("message"@, q + 10)));
    assert(s.skip(q + 12) =~= em + seq!['"'] + s.skip(end));
    lemma_parse_escaped(s, q + 12, m.message, s.skip(end));
    assert(parse_string_body_spec(s, q + 12) == Some((m.message, end)));
    // the two members in sequence
    assert("message"@ != "from"@);
    let acc0 = MsgAccView { from: None, message: None };
    let acc1 = MsgAccView { from: Some(m.from), message: None };
    let acc2 = MsgAccView { from: Some(m.from), message: Some(m.message) };
    assert(parse_msg_member_value_spec(s, 8, "from"@, acc0) == Some((acc1, q)));
    assert(parse_msg_member_value_spec(s, q + 11, "message"@, acc1) == Some((acc2, end)));
    assert(parse_msg_members_spec(s, q + 1, acc1) == Some((acc2, s.len() as int)));
    assert(parse_msg_members_spec(s, 1, acc0) == Some((acc2, s.len() as int)));
    assert(parse_message_data_spec(s) == Some(m));
}


/// The fixed wire literals: all plain under escaping, with their
/// lengths, and pairwise distinct where the grammar must tell them
/// apart.
proof fn lemma_wire_literals()
    ensures
        escape_string("messageType"@) == "messageType"@,
        escape_string("dataArray"@) == "dataArray"@,
        escape_string("data"@) == "data"@,
        escape_string("users"@) == "users"@,
        escape_string("register"@) == "register"@,
        escape_string("message"@) == "message"@,
        "messageType"@.len() == 11 && "dataArray"@.len() == 9 && "data"@.len() == 4,
        "users"@.len() == 5 && "register"@.len() == 8 && "message"@.len() == 7,
        "dataArray"@ != "messageType"@ && "data"@ != "messageType"@ && "data"@ != "dataArray"@,
        "register"@ != "users"@ && "message"@ != "users"@ && "message"@ != "register"@,
{
    reveal_strlit("messageType");
    reveal_strlit("dataArray");
    reveal_strlit("data");
    reveal_strlit("users");
    reveal_strlit("register");
    reveal_strlit("message");
    assert(forall|k: int| 0 <= k < "messageType"@.len() ==> is_plain(#[trigger] "messageType"@[k]));
    lemma_escape_plain("messageType"@);
    assert(forall|k: int| 0 <= k < "dataArray"@.len() ==> is_plain(#[trigger] "dataArray"@[k]));
    lemma_escape_plain("dataArray"@);
    assert(forall|k: int| 0 <= k < "data"@.len() ==> is_plain(#[trigger] "data"@[k]));
    lemma_escape_plain("data"@);
    assert(forall|k: int| 0 <= k < "users"@.len() ==> is_plain(#[trigger] "users"@[k]));
    lemma_escape_plain("users"@);
    assert(forall|k: int| 0 <= k < "register"@.len() ==> is_plain(#[trigger] "register"@[k]));
    lemma_escape_plain("register"@);
    assert(forall|k: int| 0 <= k < "message"@.len() ==> is_plain(#[trigger] "message"@[k]));
    lemma_escape_plain("message"@);
}

/// The trailing elements of an array, a closing bracket, and any text
/// after parse back to exactly those elements.
#[verifier::rlimit(100)]
proof fn lemma_parse_items(s: Seq<char>, i: int, a: Seq<Seq<char>>, tail: Seq<char>)
    requires
        0 <= i <= s.len(),
        s.skip(i) == strings_items(a) + seq![']'] + tail,
    ensures
        parse_array_rest_spec(s, i) == Some((a, i + strings_items(a).len() + 1)),
    decreases a.len(),
{
    assert(s.skip(i).len() == s.len() - i);
    if a.len() == 0 {
        assert(strings_items(a) =~= Seq::<char>::empty());
        assert(s.skip(i)[0] == s[i]);
        assert(s[i] == ']');
        assert(skip_ws_spec(s, i) == i);
        assert(parse_array_rest_spec(s, i) == Some((Seq::<Seq<char>>::empty(), i + 1)));
        assert(Seq::<Seq<char>>::empty() =~= a);
    } else {
        let first = a[0];
        let rest = a.drop_first();
        let e0 = escape_string(first);
        assert(strings_items(a) == seq![','] + quoted(first) + strings_items(rest));
        assert(s.skip(i)[0] == s[i] && s.skip(i)[1] == s[i + 1]);
        assert(s[i] == ',' && s[i + 1] == '"');
        assert(skip_ws_spec(s, i) == i);
        assert(skip_ws_spec(s, i + 1) == i + 1);
        let l: int = i + 2 + e0.len() as int + 1;
        assert(s.skip(i + 2) =~= e0 + seq!['"'] + (strings_items(rest) + seq![']'] + tail)) by {
            assert forall|k: int| 0 <= k < s.skip(i + 2).len() implies s.skip(i + 2)[k] == (e0
                + seq!['"'] + (strings_items(rest) + seq![']'] + tail))[k] by {
                assert(s.skip(i + 2)[k] == s[i + 2 + k]);
                assert(s.skip(i)[2 + k] == s[i + 2 + k]);
                assert(s.skip(i)[2 + k] == (strings_items(a) + seq![']'] + tail)[2 + k]);
            }
        }
        lemma_parse_escaped(s, i + 2, first, strings_items(rest) + seq![']'] + tail);
        assert(parse_string_body_spec(s, i + 2) == Some((first, l)));
        assert(s.skip(l) =~= strings_items(rest) + seq![']'] + tail) by {
            assert forall|k: int| 0 <= k < s.skip(l).len() implies s.skip(l)[k] == (strings_items(
                rest,
            ) + seq![']'] + tail)[k] by {
                assert(s.skip(l)[k] == s[l + k]);
                assert(s.skip(i + 2)[e0.len() + 1 + k] == s[l + k]);
                assert(s.skip(i + 2)[e0.len() + 1 + k] == (e0 + seq!['"'] + (strings_items(rest)
                    + seq![']'] + tail))[e0.len() + 1 + k]);
            }
        }
        lemma_parse_items(s, l, rest, tail);
        assert(seq![first] + rest =~= a);
        assert(parse_array_rest_spec(s, i) == Some((a, i + strings_items(a).len() + 1)));
    }
}

/// The inside of an array token (everything after the opening
/// bracket) and any text after parse back to exactly its elements.
#[verifier::rlimit(100)]
proof fn lemma_parse_array_text(s: Seq<char>, i: int, a: Seq<Seq<char>>, tail: Seq<char>)
    requires
        0 <= i <= s.len(),
        s.skip(i) == strings_array_text(a).skip(1) + tail,
    ensures
        parse_array_spec(s, i) == Some((a, i + strings_array_text(a).len() - 1)),
{
    assert(s.skip(i).len() == s.len() - i);
    if a.len() == 0 {
        assert(strings_array_text(a).skip(1) =~= seq![']']);
        assert(s.skip(i)[0] == s[i]);
        assert(s[i] == ']');
        assert(skip_ws_spec(s, i) == i);
        assert(parse_array_spec(s, i) == Some((Seq::<Seq<char>>::empty(), i + 1)));
        assert(Seq::<Seq<char>>::empty() =~= a);
    } else {
        let first = a[0];
        let rest = a.drop_first();
        let e0 = escape_string(first);
        assert(strings_array_text(a).skip(1) =~= quoted(first) + strings_items(rest) + seq![']']);
        assert(s.skip(i)[0] == s[i]);
        assert(s[i] == '"');
        assert(skip_ws_spec(s, i) == i);
        let l: int = i + 1 + e0.len() as int + 1;
        assert(s.skip(i + 1) =~= e0 + seq!['"'] + (strings_items(rest) + seq![']'] + tail)) by {
            assert forall|k: int| 0 <= k < s.skip(i + 1).len() implies s.skip(i + 1)[k] == (e0
                + seq!['"'] + (strings_items(rest) + seq![']'] + tail))[k] by {
                assert(s.skip(i + 1)[k] == s[i + 1 + k]);
                assert(s.skip(i)[1 + k] == s[i + 1 + k]);
                assert(s.skip(i)[1 + k] == (strings_array_text(a).skip(1) + tail)[1 + k]);
                assert(strings_array_text(a).skip(1)[1 + k] == (quoted(first) + strings_items(rest)
                    + seq![']'])[1 + k]);
            }
        }
        lemma_parse_escaped(s, i + 1, first, strings_items(rest) + seq![']'] + tail);
        assert(parse_string_body_spec(s, i + 1) == Some((first, l)));
        assert(s.skip(l) =~= strings_items(rest) + seq![']'] + tail) by {
            assert forall|k: int| 0 <= k < s.skip(l).len() implies s.skip(l)[k] == (strings_items(
                rest,
            ) + seq![']'] + tail)[k] by {
                assert(s.skip(l)[k] == s[l + k]);
                assert(s.skip(i + 1)[e0.len() + 1 + k] == s[l + k]);
                assert(s.skip(i + 1)[e0.len() + 1 + k] == (e0 + seq!['"'] + (strings_items(rest)
                    + seq![']'] + tail))[e0.len() + 1 + k]);
            }
        }
        lemma_parse_items(s, l, rest, tail);
        assert(seq![first] + rest =~= a);
        assert(parse_array_spec(s, i) == Some((a, i + strings_array_text(a).len() - 1)));
    }
}


/// The four string tokens of the canonical envelope text, each seen
/// from its own position: the two fixed keys, the tag, and the third
/// key, every one followed by its closing quote and the rest of the
/// text.
#[verifier::rlimit(100)]
proof fn lemma_envelope_key_layout(e: WebSocketMessageView)
    ensures
        ({
            let s = envelope_text(e);
            let name = msg_type_name(e.message_type);
            let nl = name.len() as int;
            let p1 = 17 + nl;
            let p2 = p1 + 13 + opt_array_text(e.data_array).len() as int;
            &&& s.skip(2) == escape_string("messageType"@) + seq!['"'] + s.skip(14)
            &&& s.skip(16) == escape_string(name) + seq!['"'] + s.skip(p1)
            &&& s.skip(p1 + 2) == escape_string("dataArray"@) + seq!['"'] + s.skip(p1 + 12)
            &&& s.skip(p2 + 2) == escape_string("data"@) + seq!['"'] + s.skip(p2 + 7)
        }),
{
    let s = envelope_text(e);
    let t = e.message_type;
    let name = msg_type_name(t);
    let nl = name.len() as int;
    let va = opt_array_text(e.data_array);
    let vd = opt_string_text(e.data);
    reveal_strlit("{\"messageType\":\"");
    reveal_strlit("\",\"dataArray\":");
    reveal_strlit(",\"data\":");
    reveal_strlit("}");
    reveal_strlit("messageType");
    reveal_strlit("dataArray");
    reveal_strlit("data");
    lemma_wire_literals();
    assert(escape_string(name) == name);
    assert(s =~= "{\"messageType\":\""@ + name + "\",\"dataArray\":"@ + va + ",\"data\":"@ + vd
        + "}"@);
    let p1: int = 17 + nl;
    let p2: int = p1 + 13 + va.len() as int;
    assert(s[2] == 'm' && s[3] == 'e' && s[4] == 's' && s[5] == 's' && s[6] == 'a' && s[7]
        == 'g' && s[8] == 'e' && s[9] == 'T' && s[10] == 'y' && s[11] == 'p' && s[12] == 'e' && s[13]
        == '"');
    assert(s[p1 + 2] == 'd' && s[p1 + 3] == 'a' && s[p1 + 4] == 't' && s[p1 + 5] == 'a' && s[p1
        + 6] == 'A' && s[p1 + 7] == 'r' && s[p1 + 8] == 'r' && s[p1 + 9] == 'a' && s[p1 + 10] == 'y'
        && s[p1 + 11] == '"');
    assert(s[p2 + 2] == 'd' && s[p2 + 3] == 'a' && s[p2 + 4] == 't' && s[p2 + 5] == 'a' && s[p2
        + 6] == '"');
    assert(s.skip(2) =~= escape_string("messageType"@) + seq!['"'] + s.skip(14)) by {
        assert forall|k: int| 0 <= k < s.skip(2).len() implies (#[trigger] s.skip(2)[k]) == (escape_string("messageType"@)
            + seq!['"'] + s.skip(14))[k] by {
            assert(s.skip(2)[k] == s[(2) + k]);
            if k < 12 {
                assert(k == 0 || k == 1 || k == 2 || k == 3 || k == 4 || k == 5 || k == 6 || k == 7 || k == 8 || k == 9 || k == 10 || k == 11);
            }
            if k >= 12 {
                assert(s.skip(14)[k - (12)] == s[(14) + k - (12)]);
            }
        }
    }
    assert(s.skip(16) =~= escape_string(name) + seq!['"'] + s.skip(p1)) by {
        assert forall|k: int| 0 <= k < s.skip(16).len() implies (#[trigger] s.skip(16)[k]) == (escape_string(name)
            + seq!['"'] + s.skip(p1))[k] by {
            assert(s.skip(16)[k] == s[(16) + k]);
            if k >= nl + 1 {
                assert(s.skip(p1)[k - (nl + 1)] == s[(p1) + k - (nl + 1)]);
            }
        }
    }
    assert(s.skip(p1 + 2) =~= escape_string("dataArray"@) + seq!['"'] + s.skip(p1 + 12)) by {
        assert forall|k: int| 0 <= k < s.skip(p1 + 2).len() implies (#[trigger] s.skip(p1 + 2)[k]) == (escape_string("dataArray"@)
            + seq!['"'] + s.skip(p1 + 12))[k] by {
            assert(s.skip(p1 + 2)[k] == s[(p1 + 2) + k]);
            if k < 10 {
                assert(k == 0 || k == 1 || k == 2 || k == 3 || k == 4 || k == 5 || k == 6 || k == 7 || k == 8 || k == 9);
            }
            if k >= 10 {
                assert(s.skip(p1 + 12)[k - (10)] == s[(p1 + 12) + k - (10)]);
            }
        }
    }
    assert(s.skip(p2 + 2) =~= escape_string("data"@) + seq!['"'] + s.skip(p2 + 7)) by {
        assert forall|k: int| 0 <= k < s.skip(p2 + 2).len() implies (#[trigger] s.skip(p2 + 2)[k]) == (escape_string("data"@)
            + seq!['"'] + s.skip(p2 + 7))[k] by {
            assert(s.skip(p2 + 2)[k] == s[(p2 + 2) + k]);
            if k < 5 {
                assert(k == 0 || k == 1 || k == 2 || k == 3 || k == 4);
            }
            if k >= 5 {
                assert(s.skip(p2 + 7)[k - (5)] == s[(p2 + 7) + k - (5)]);
            }
        }
    }
}

/// The canonical text of an envelope parses back to exactly that
/// envelope: the encoder and the decoder agree on every record.
#[verifier::rlimit(100)]
pub proof fn lemma_envelope_round_trip(e: WebSocketMessageView)
    ensures
        parse_envelope_spec(envelope_text(e)) == Some(e),
{
    let s = envelope_text(e);
    let t = e.message_type;
    let name = msg_type_name(t);
    let nl = name.len() as int;
    let va = opt_array_text(e.data_array);
    let vd = opt_string_text(e.data);
    reveal_strlit("{\"messageType\":\"");
    reveal_strlit("\",\"dataArray\":");
    reveal_strlit(",\"data\":");
    reveal_strlit("}");
    reveal_strlit("null");
    lemma_wire_literals();
    lemma_envelope_key_layout(e);
    assert(escape_string(name) == name);
    assert(s =~= "{\"messageType\":\""@ + name + "\",\"dataArray\":"@ + va + ",\"data\":"@ + vd
        + "}"@);
    let p1: int = 17 + nl;
    let va0: int = p1 + 13;
    let p2: int = va0 + va.len() as int;
    let vd0: int = p2 + 8;
    let p3: int = vd0 + vd.len() as int;
    assert(s.len() == p3 + 1);
    assert(s[0] == '{' && s[1] == '"' && s[14] == ':' && s[15] == '"');
    assert(s[p1] == ',' && s[p1 + 1] == '"' && s[p1 + 12] == ':');
    assert(s[p2] == ',' && s[p2 + 1] == '"' && s[p2 + 7] == ':');
    assert(s[p3] == '}');
    assert(skip_ws_spec(s, 0) == 0);
    assert(skip_ws_spec(s, 1) == 1);
    assert(skip_ws_spec(s, 14) == 14);
    assert(skip_ws_spec(s, 15) == 15);
    assert(skip_ws_spec(s, p1) == p1);
    assert(skip_ws_spec(s, p1 + 1) == p1 + 1);
    assert(skip_ws_spec(s, p1 + 12) == p1 + 12);
    assert(skip_ws_spec(s, p2) == p2);
    assert(skip_ws_spec(s, p2 + 1) == p2 + 1);
    assert(skip_ws_spec(s, p2 + 7) == p2 + 7);
    assert(skip_ws_spec(s, p3) == p3);
    assert(skip_ws_spec(s, s.len() as int) == s.len());
    // the discriminator member and its value
    lemma_parse_escaped(s, 2, "messageType"@, s.skip(14));
    assert(parse_string_body_spec(s, 2) == Some(("messageType"@, 14int)));
    lemma_parse_escaped(s, 16, name, s.skip(p1));
    assert(parse_string_body_spec(s, 16) == Some((name, p1)));
    let acc0 = EnvAccView { mt: None, seen_da: false, da: None, seen_d: false, d: None };
    let acc1 = EnvAccView { mt: Some(t), seen_da: false, da: None, seen_d: false, d: None };
    assert(parse_member_value_spec(s, 15, "messageType"@, acc0) == Some((acc1, p1)));
    // the array member and its value
    lemma_parse_escaped(s, p1 + 2, "dataArray"@, s.skip(p1 + 12));
    assert(parse_string_body_spec(s, p1 + 2) == Some(("dataArray"@, p1 + 12)));
    let acc2 = EnvAccView {
        mt: Some(t),
        seen_da: true,
        da: e.data_array,
        seen_d: false,
        d: None,
    };
    let va0u: int = va0 + 1;
    assert(skip_ws_spec(s, p1 + 13) == va0);
    match e.data_array {
        None => {
            assert(va == null_text());
            assert(s[va0] == 'n' && s[va0 + 1] == 'u' && s[va0 + 2] == 'l' && s[va0 + 3] == 'l');
            assert(at_null(s, va0));
            assert(parse_member_value_spec(s, va0, "dataArray"@, acc1) == Some((acc2, p2)));
        },
        Some(arr) => {
            assert(va == strings_array_text(arr));
            assert(s[va0] == '[');
            assert(!at_null(s, va0));
            assert(s.skip(va0u) =~= strings_array_text(arr).skip(1) + s.skip(p2)) by {
                assert forall|k: int| 0 <= k < s.skip(va0u).len() implies s.skip(va0u)[k] == (
                strings_array_text(arr).skip(1) + s.skip(p2))[k] by {
                    assert(s.skip(va0u)[k] == s[va0u + k]);
                    if k < strings_array_text(arr).len() - 1 {
                        assert(va[1 + k] == strings_array_text(arr).skip(1)[k]);
                    } else {
                        assert(s.skip(p2)[k - (strings_array_text(arr).len() - 1)] == s[p2 + k - (
                        strings_array_text(arr).len() - 1)]);
                    }
                }
            }
            lemma_parse_array_text(s, va0u, arr, s.skip(p2));
            assert(parse_array_spec(s, va0u) == Some((arr, p2)));
            assert(parse_member_value_spec(s, va0, "dataArray"@, acc1) == Some((acc2, p2)));
        },
    }
    // the string member and its value
    lemma_parse_escaped(s, p2 + 2, "data"@, s.skip(p2 + 7));
    assert(parse_string_body_spec(s, p2 + 2) == Some(("data"@, p2 + 7)));
    let acc3 = EnvAccView {
        mt: Some(t),
        seen_da: true,
        da: e.data_array,
        seen_d: true,
        d: e.data,
    };
    assert(skip_ws_spec(s, p2 + 8) == vd0);
    match e.data {
        None => {
            assert(vd == null_text());
            assert(s[vd0] == 'n' && s[vd0 + 1] == 'u' && s[vd0 + 2] == 'l' && s[vd0 + 3] == 'l');
            assert(at_null(s, vd0));
            assert(parse_member_value_spec(s, vd0, "data"@, acc2) == Some((acc3, p3)));
        },
        Some(dv) => {
            assert(vd == quoted(dv));
            assert(s[vd0] == '"');
            assert(!at_null(s, vd0));
            assert(s.skip(vd0 + 1) =~= escape_string(dv) + seq!['"'] + s.skip(p3)) by {
        assert forall|k: int| 0 <= k < s.skip(vd0 + 1).len() implies (#[trigger] s.skip(vd0 + 1)[k]) == (escape_string(dv)
            + seq!['"'] + s.skip(p3))[k] by {
            assert(s.skip(vd0 + 1)[k] == s[(vd0 + 1) + k]);
            if k >= escape_string(dv).len() + 1 {
                assert(s.skip(p3)[k - (escape_string(dv).len() + 1)] == s[(p3) + k - (escape_string(dv).len() + 1)]);
            }
        }
    }
            lemma_parse_escaped(s, vd0 + 1, dv, s.skip(p3));
            assert(parse_string_body_spec(s, vd0 + 1) == Some((dv, p3)));
            assert(parse_member_value_spec(s, vd0, "data"@, acc2) == Some((acc3, p3)));
        },
    }
    // the three members in sequence, then the whole envelope
    assert(parse_members_spec(s, p2 + 1, acc2) == Some((acc3, s.len() as int)));
    assert(parse_members_spec(s, p1 + 1, acc1) == Some((acc3, s.len() as int)));
    assert(parse_members_spec(s, 1, acc0) == Some((acc3, s.len() as int)));
    assert(parse_envelope_spec(s) == Some(e));
}

} // verus!
