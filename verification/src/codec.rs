//! The wire codec of the relay.
//!
//! Incoming event bodies and outgoing frames are JSON objects whose values
//! are strings or `null`; any other value shape is refused. Incoming bodies
//! accept both spellings of each aliased field name (`msgType`/`msg_type`,
//! `audioUrl`/`audio_url`, `statusType`/`status_type`) and ignore unknown
//! keys; a field given twice, under one spelling or both, is refused.
//! Outgoing frames use the canonical camel-case spellings, always carry all
//! three payload keys (`null` when a field is absent) and never carry
//! `username`.
//!
//! String escaping: `"` and `\` are escaped with a backslash, the common
//! control characters as `\b`, `\f`, `\n`, `\r`, `\t`, and the remaining
//! control characters as `\u00XX`. The decoder additionally accepts `\/` and
//! any `\uXXXX` outside the surrogate range; raw control characters inside a
//! string are refused.

use vstd::prelude::*;

use crate::error::ServerError;
use crate::msg::{Msg, MsgModel, Payload, PayloadModel};

verus! {

broadcast use vstd::string::next_postcondition, vstd::string::axiom_spec_iter;

use vstd::std_specs::iter::IteratorSpec;

// ---------------------------------------------------------------------------
// Escaping
// ---------------------------------------------------------------------------

/// The lower-case hexadecimal digit for a value below sixteen.
pub open spec fn hex_digit(d: u32) -> char {
    if d == 0 {
        '0'
    } else if d == 1 {
        '1'
    } else if d == 2 {
        '2'
    } else if d == 3 {
        '3'
    } else if d == 4 {
        '4'
    } else if d == 5 {
        '5'
    } else if d == 6 {
        '6'
    } else if d == 7 {
        '7'
    } else if d == 8 {
        '8'
    } else if d == 9 {
        '9'
    } else if d == 10 {
        'a'
    } else if d == 11 {
        'b'
    } else if d == 12 {
        'c'
    } else if d == 13 {
        'd'
    } else if d == 14 {
        'e'
    } else {
        'f'
    }
}

/// How one character appears inside an encoded JSON string.
pub open spec fn escape_char(c: char) -> Seq<char> {
    if c == '"' {
        seq!['\\', '"']
    } else if c == '\\' {
        seq!['\\', '\\']
    } else if c == '\u{8}' {
        seq!['\\', 'b']
    } else if c == '\u{c}' {
        seq!['\\', 'f']
    } else if c == '\n' {
        seq!['\\', 'n']
    } else if c == '\r' {
        seq!['\\', 'r']
    } else if c == '\t' {
        seq!['\\', 't']
    } else if (c as u32) < 32 {
        seq!['\\', 'u', '0', '0', hex_digit((c as u32) / 16), hex_digit((c as u32) % 16)]
    } else {
        seq![c]
    }
}

/// A whole string's content, escaped character by character.
pub open spec fn escape_string(s: Seq<char>) -> Seq<char>
    decreases s.len(),
{
    if s.len() == 0 {
        Seq::<char>::empty()
    } else {
        escape_char(s[0]) + escape_string(s.drop_first())
    }
}

/// A JSON string token: the escaped content between double quotes.
pub open spec fn quoted(s: Seq<char>) -> Seq<char> {
    seq!['"'] + escape_string(s) + seq!['"']
}

pub open spec fn null_chars() -> Seq<char> {
    seq!['n', 'u', 'l', 'l']
}

/// A string-or-null JSON value.
pub open spec fn json_value(v: Option<Seq<char>>) -> Seq<char> {
    match v {
        Some(s) => quoted(s),
        None => null_chars(),
    }
}

// ---------------------------------------------------------------------------
// Field names
// ---------------------------------------------------------------------------

pub open spec fn key_username() -> Seq<char> {
    seq!['u', 's', 'e', 'r', 'n', 'a', 'm', 'e']
}

pub open spec fn key_msg_type() -> Seq<char> {
    seq!['m', 's', 'g', 'T', 'y', 'p', 'e']
}

pub open spec fn key_msg_type_alias() -> Seq<char> {
    seq!['m', 's', 'g', '_', 't', 'y', 'p', 'e']
}

pub open spec fn key_audio_url() -> Seq<char> {
    seq!['a', 'u', 'd', 'i', 'o', 'U', 'r', 'l']
}

pub open spec fn key_audio_url_alias() -> Seq<char> {
    seq!['a', 'u', 'd', 'i', 'o', '_', 'u', 'r', 'l']
}

pub open spec fn key_status_type() -> Seq<char> {
    seq!['s', 't', 'a', 't', 'u', 's', 'T', 'y', 'p', 'e']
}

pub open spec fn key_status_type_alias() -> Seq<char> {
    seq!['s', 't', 'a', 't', 'u', 's', '_', 't', 'y', 'p', 'e']
}

// ---------------------------------------------------------------------------
// Encoding
// ---------------------------------------------------------------------------

/// The exact frame delivered to a consumer for a payload: the three payload
/// fields under their canonical names, in a fixed order, without `username`.
pub open spec fn encode_payload_model(p: PayloadModel) -> Seq<char> {
    seq!['{'] + quoted(key_msg_type()) + seq![':'] + quoted(p.msg_type) + seq![','] + quoted(
        key_audio_url(),
    ) + seq![':'] + json_value(p.audio_url) + seq![','] + quoted(key_status_type()) + seq![':']
        + json_value(p.status_type) + seq!['}']
}

/// Escaping distributes over concatenation.
proof fn lemma_escape_concat(a: Seq<char>, b: Seq<char>)
    ensures
        escape_string(a + b) == escape_string(a) + escape_string(b),
    decreases a.len(),
{
    if a.len() == 0 {
        assert(a + b =~= b);
        assert(escape_string(a) + escape_string(b) =~= escape_string(b));
    } else {
        assert((a + b).drop_first() =~= a.drop_first() + b);
        lemma_escape_concat(a.drop_first(), b);
        assert((a + b)[0] == a[0]);
        assert(escape_char(a[0]) + (escape_string(a.drop_first()) + escape_string(b))
            =~= (escape_char(a[0]) + escape_string(a.drop_first())) + escape_string(b));
    }
}

/// Escaping one more character appends its escape sequence.
proof fn lemma_escape_snoc(s: Seq<char>, i: int)
    requires
        0 <= i < s.len(),
    ensures
        escape_string(s.take(i + 1)) == escape_string(s.take(i)) + escape_char(s[i]),
{
    assert(s.take(i + 1) =~= s.take(i) + seq![s[i]]);
    lemma_escape_concat(s.take(i), seq![s[i]]);
    lemma_escape_single(s[i]);
}

/// A one-character string escapes to that character's escape sequence.
proof fn lemma_escape_single(c: char)
    ensures
        escape_string(seq![c]) == escape_char(c),
{
    let s = seq![c];
    assert(s.drop_first() =~= Seq::<char>::empty());
    assert(escape_string(Seq::<char>::empty()) == Seq::<char>::empty());
    assert(escape_string(s) == escape_char(c) + escape_string(s.drop_first()));
    assert(escape_char(c) + Seq::<char>::empty() =~= escape_char(c));
}

/// The characters of a string slice, in order.
fn chars_of(s: &str) -> (v: Vec<char>)
    ensures
        v@ == s@,
{
    let mut it = s.chars();
    let mut v: Vec<char> = Vec::new();
    loop
        invariant
            it.obeys_prophetic_iter_laws(),
            it.decrease() is Some,
            v@ + it.remaining() == s@,
        ensures
            v@ == s@,
        decreases it.decrease()->0,
    {
        let ghost prev = v@;
        let ghost rem = it.remaining();
        match it.next() {
            Some(c) => {
                v.push(c);
                proof {
                    assert(v@ + it.remaining() =~= prev + rem);
                }
            },
            None => {
                proof {
                    assert(v@ + it.remaining() =~= v@);
                }
                break ;
            },
        }
    }
    v
}

/// Relies on `String: FromIterator<char>`: collecting characters yields the
/// string made of exactly those characters, in order.
#[verifier::external_body]
fn string_from_chars(v: &Vec<char>) -> (s: String)
    ensures
        s@ == v@,
{
    v.iter().collect()
}

fn hex_digit_exec(d: u32) -> (c: char)
    requires
        d < 16,
    ensures
        c == hex_digit(d),
{
    if d == 0 {
        '0'
    } else if d == 1 {
        '1'
    } else if d == 2 {
        '2'
    } else if d == 3 {
        '3'
    } else if d == 4 {
        '4'
    } else if d == 5 {
        '5'
    } else if d == 6 {
        '6'
    } else if d == 7 {
        '7'
    } else if d == 8 {
        '8'
    } else if d == 9 {
        '9'
    } else if d == 10 {
        'a'
    } else if d == 11 {
        'b'
    } else if d == 12 {
        'c'
    } else if d == 13 {
        'd'
    } else if d == 14 {
        'e'
    } else {
        'f'
    }
}

/// Append the escaped form of `s`'s characters.
fn push_escaped(out: &mut Vec<char>, s: &Vec<char>)
    ensures
        final(out)@ == old(out)@ + escape_string(s@),
{
    let ghost base = out@;
    let mut i: usize = 0;
    proof {
        assert(s@.take(0) =~= Seq::<char>::empty());
        assert(base + Seq::<char>::empty() =~= base);
    }
    while i < s.len()
        invariant
            i <= s@.len(),
            out@ == base + escape_string(s@.take(i as int)),
        decreases s@.len() - i,
    {
        let c = s[i];
        let u = c as u32;
        if c == '"' {
            out.push('\\');
            out.push('"');
        } else if c == '\\' {
            out.push('\\');
            out.push('\\');
        } else if c == '\u{8}' {
            out.push('\\');
            out.push('b');
        } else if c == '\u{c}' {
            out.push('\\');
            out.push('f');
        } else if c == '\n' {
            out.push('\\');
            out.push('n');
        } else if c == '\r' {
            out.push('\\');
            out.push('r');
        } else if c == '\t' {
            out.push('\\');
            out.push('t');
        } else if u < 32 {
            out.push('\\');
            out.push('u');
            out.push('0');
            out.push('0');
            out.push(hex_digit_exec(u / 16));
            out.push(hex_digit_exec(u % 16));
        } else {
            out.push(c);
        }
        proof {
            lemma_escape_snoc(s@, i as int);
            assert(out@ =~= base + escape_string(s@.take(i + 1)));
        }
        i = i + 1;
    }
    proof {
        assert(s@.take(s@.len() as int) =~= s@);
    }
}

/// Append a JSON string token holding `s`.
fn push_json_string(out: &mut Vec<char>, s: &Vec<char>)
    ensures
        final(out)@ == old(out)@ + quoted(s@),
{
    out.push('"');
    push_escaped(out, s);
    out.push('"');
    proof {
        assert(final(out)@ =~= old(out)@ + quoted(s@));
    }
}

/// Append a JSON string-or-null value.
fn push_json_value(out: &mut Vec<char>, v: &Option<String>)
    ensures
        final(out)@ == old(out)@ + json_value(
            match v {
                Some(s) => Some(s@),
                None => None,
            },
        ),
{
    match v {
        Some(s) => {
            let cs = chars_of(s.as_str());
            push_json_string(out, &cs);
        },
        None => {
            out.push('n');
            out.push('u');
            out.push('l');
            out.push('l');
            proof {
                assert(final(out)@ =~= old(out)@ + null_chars());
            }
        },
    }
}

/// Serialize the consumer-visible part of a message as one JSON text frame:
/// canonical field names, all three payload fields present (`null` when
/// absent), no `username`.
pub fn encode_payload(m: &Msg) -> (r: String)
    ensures
        r@ == encode_payload_model(m@.payload()),
{
    let mut out: Vec<char> = Vec::new();
    out.push('{');
    let key_ty = chars_of("msgType");
    proof {
        reveal_strlit("msgType");
        assert(key_ty@ =~= key_msg_type());
    }
    push_json_string(&mut out, &key_ty);
    out.push(':');
    let ty = chars_of(m.type_.as_str());
    push_json_string(&mut out, &ty);
    out.push(',');
    let key_au = chars_of("audioUrl");
    proof {
        reveal_strlit("audioUrl");
        assert(key_au@ =~= key_audio_url());
    }
    push_json_string(&mut out, &key_au);
    out.push(':');
    push_json_value(&mut out, &m.audio_url);
    out.push(',');
    let key_st = chars_of("statusType");
    proof {
        reveal_strlit("statusType");
        assert(key_st@ =~= key_status_type());
    }
    push_json_string(&mut out, &key_st);
    out.push(':');
    push_json_value(&mut out, &m.status_type);
    out.push('}');
    proof {
        assert(out@ =~= encode_payload_model(m@.payload()));
    }
    string_from_chars(&out)
}

// ---------------------------------------------------------------------------
// Parsing: specification
// ---------------------------------------------------------------------------

pub open spec fn is_ws(c: char) -> bool {
    c == ' ' || c == '\t' || c == '\n' || c == '\r'
}

/// The suffix that begins at the first non-whitespace character.
pub open spec fn skip_ws(s: Seq<char>) -> Seq<char>
    decreases s.len(),
{
    if s.len() > 0 && is_ws(s[0]) {
        skip_ws(s.drop_first())
    } else {
        s
    }
}

/// What a single-character escape stands for, if it is one.
pub open spec fn unescape_char(c: char) -> Option<char> {
    if c == '"' {
        Some('"')
    } else if c == '\\' {
        Some('\\')
    } else if c == '/' {
        Some('/')
    } else if c == 'b' {
        Some('\u{8}')
    } else if c == 'f' {
        Some('\u{c}')
    } else if c == 'n' {
        Some('\n')
    } else if c == 'r' {
        Some('\r')
    } else if c == 't' {
        Some('\t')
    } else {
        None
    }
}

/// The value of a hexadecimal digit, either case.
pub open spec fn hex_val(c: char) -> Option<u32> {
    if c == '0' {
        Some(0)
    } else if c == '1' {
        Some(1)
    } else if c == '2' {
        Some(2)
    } else if c == '3' {
        Some(3)
    } else if c == '4' {
        Some(4)
    } else if c == '5' {
        Some(5)
    } else if c == '6' {
        Some(6)
    } else if c == '7' {
        Some(7)
    } else if c == '8' {
        Some(8)
    } else if c == '9' {
        Some(9)
    } else if c == 'a' || c == 'A' {
        Some(10)
    } else if c == 'b' || c == 'B' {
        Some(11)
    } else if c == 'c' || c == 'C' {
        Some(12)
    } else if c == 'd' || c == 'D' {
        Some(13)
    } else if c == 'e' || c == 'E' {
        Some(14)
    } else if c == 'f' || c == 'F' {
        Some(15)
    } else {
        None
    }
}

/// The scalar value of a `\uXXXX` escape's four digits.
pub open spec fn hex4_val(a: char, b: char, c: char, d: char) -> int {
    hex_val(a)->0 * 0x1000 + hex_val(b)->0 * 0x100 + hex_val(c)->0 * 16 + hex_val(d)->0
}

/// Parse the rest of a JSON string token, after its opening quote: the
/// unescaped content and the suffix after the closing quote. Raw control
/// characters, unknown escapes, truncated input and surrogate `\u` escapes
/// are refused.
pub open spec fn parse_string_body(s: Seq<char>) -> Option<(Seq<char>, Seq<char>)>
    decreases s.len(),
{
    if s.len() == 0 {
        None
    } else if s[0] == '"' {
        Some((Seq::<char>::empty(), s.drop_first()))
    } else if s[0] == '\\' {
        if s.len() >= 2 && s[1] == 'u' {
            if s.len() >= 6 && hex_val(s[2]) is Some && hex_val(s[3]) is Some && hex_val(
                s[4],
            ) is Some && hex_val(s[5]) is Some {
                let v = hex4_val(s[2], s[3], s[4], s[5]);
                if 0xD800 <= v < 0xE000 {
                    None
                } else {
                    match parse_string_body(s.skip(6)) {
                        Some((c, r)) => Some((seq![((v as u32) as char)] + c, r)),
                        None => None,
                    }
                }
            } else {
                None
            }
        } else if s.len() >= 2 && unescape_char(s[1]) is Some {
            match parse_string_body(s.skip(2)) {
                Some((c, r)) => Some((seq![unescape_char(s[1])->0] + c, r)),
                None => None,
            }
        } else {
            None
        }
    } else if (s[0] as u32) < 32 {
        None
    } else {
        match parse_string_body(s.drop_first()) {
            Some((c, r)) => Some((seq![s[0]] + c, r)),
            None => None,
        }
    }
}

/// A string-or-null value, with leading whitespace.
pub open spec fn parse_value(s: Seq<char>) -> Option<(Option<Seq<char>>, Seq<char>)> {
    let t = skip_ws(s);
    if t.len() > 0 && t[0] == '"' {
        match parse_string_body(t.drop_first()) {
            Some((c, r)) => Some((Some(c), r)),
            None => None,
        }
    } else if t.len() >= 4 && t[0] == 'n' && t[1] == 'u' && t[2] == 'l' && t[3] == 'l' {
        Some((None, t.skip(4)))
    } else {
        None
    }
}

proof fn lemma_skip_ws_len(s: Seq<char>)
    ensures
        skip_ws(s).len() <= s.len(),
    decreases s.len(),
{
    if s.len() > 0 && is_ws(s[0]) {
        lemma_skip_ws_len(s.drop_first());
    }
}

proof fn lemma_parse_string_body_len(s: Seq<char>)
    ensures
        parse_string_body(s) matches Some(p) ==> p.1.len() < s.len(),
    decreases s.len(),
{
    if s.len() == 0 {
    } else if s[0] == '"' {
    } else if s[0] == '\\' {
        if s.len() >= 2 && s[1] == 'u' {
            if s.len() >= 6 {
                lemma_parse_string_body_len(s.skip(6));
            }
        } else if s.len() >= 2 {
            lemma_parse_string_body_len(s.skip(2));
        }
    } else {
        lemma_parse_string_body_len(s.drop_first());
    }
}

proof fn lemma_parse_value_len(s: Seq<char>)
    ensures
        parse_value(s) matches Some(p) ==> p.1.len() < s.len(),
{
    lemma_skip_ws_len(s);
    let t = skip_ws(s);
    if t.len() > 0 && t[0] == '"' {
        lemma_parse_string_body_len(t.drop_first());
    }
}

/// One or more `key : value` members, each key a JSON string, separated by
/// commas and closed by `}`; the members in order and the suffix after the
/// closing brace.
pub open spec fn parse_members(s: Seq<char>) -> Option<
    (Seq<(Seq<char>, Option<Seq<char>>)>, Seq<char>),
>
    decreases s.len(),
    via parse_members_decreases
{
    let t = skip_ws(s);
    if t.len() == 0 || t[0] != '"' {
        None
    } else {
        match parse_string_body(t.drop_first()) {
            None => None,
            Some((key, r1)) => {
                let r2 = skip_ws(r1);
                if r2.len() == 0 || r2[0] != ':' {
                    None
                } else {
                    match parse_value(r2.drop_first()) {
                        None => None,
                        Some((value, r3)) => {
                            let r4 = skip_ws(r3);
                            if r4.len() > 0 && r4[0] == ',' {
                                match parse_members(r4.drop_first()) {
                                    None => None,
                                    Some((rest, r5)) => Some((seq![(key, value)] + rest, r5)),
                                }
                            } else if r4.len() > 0 && r4[0] == '}' {
                                Some((seq![(key, value)], r4.drop_first()))
                            } else {
                                None
                            }
                        },
                    }
                }
            },
        }
    }
}

#[via_fn]
proof fn parse_members_decreases(s: Seq<char>) {
    lemma_skip_ws_len(s);
    let t = skip_ws(s);
    if t.len() > 0 && t[0] == '"' {
        lemma_parse_string_body_len(t.drop_first());
        match parse_string_body(t.drop_first()) {
            None => {},
            Some((key, r1)) => {
                lemma_skip_ws_len(r1);
                let r2 = skip_ws(r1);
                if r2.len() > 0 && r2[0] == ':' {
                    lemma_parse_value_len(r2.drop_first());
                    match parse_value(r2.drop_first()) {
                        None => {},
                        Some((value, r3)) => {
                            lemma_skip_ws_len(r3);
                        },
                    }
                }
            },
        }
    }
}

/// A whole JSON object, with leading whitespace: its members in order and
/// the suffix after the closing brace.
pub open spec fn parse_object(s: Seq<char>) -> Option<
    (Seq<(Seq<char>, Option<Seq<char>>)>, Seq<char>),
> {
    let t = skip_ws(s);
    if t.len() == 0 || t[0] != '{' {
        None
    } else {
        let u = skip_ws(t.drop_first());
        if u.len() > 0 && u[0] == '}' {
            Some((Seq::<(Seq<char>, Option<Seq<char>>)>::empty(), u.drop_first()))
        } else {
            parse_members(t.drop_first())
        }
    }
}

/// A complete document: one object and nothing but whitespace after it.
pub open spec fn parse_document(s: Seq<char>) -> Option<Seq<(Seq<char>, Option<Seq<char>>)>> {
    match parse_object(s) {
        Some((kvs, r)) => if skip_ws(r).len() == 0 {
            Some(kvs)
        } else {
            None
        },
        None => None,
    }
}

// ---------------------------------------------------------------------------
// Field extraction
// ---------------------------------------------------------------------------

/// How many members carry exactly this key.
pub open spec fn count_key(kvs: Seq<(Seq<char>, Option<Seq<char>>)>, k: Seq<char>) -> nat
    decreases kvs.len(),
{
    if kvs.len() == 0 {
        0
    } else {
        (if kvs[0].0 == k {
            1nat
        } else {
            0nat
        }) + count_key(kvs.drop_first(), k)
    }
}

/// The first member under this key, if any.
pub open spec fn lookup_key(kvs: Seq<(Seq<char>, Option<Seq<char>>)>, k: Seq<char>) -> Option<
    Option<Seq<char>>,
>
    decreases kvs.len(),
{
    if kvs.len() == 0 {
        None
    } else if kvs[0].0 == k {
        Some(kvs[0].1)
    } else {
        lookup_key(kvs.drop_first(), k)
    }
}

/// How often a logical field occurs, under either of its two spellings.
pub open spec fn field_count(
    kvs: Seq<(Seq<char>, Option<Seq<char>>)>,
    k1: Seq<char>,
    k2: Seq<char>,
) -> nat {
    count_key(kvs, k1) + count_key(kvs, k2)
}

/// The value of a logical field: the canonical spelling if present, else the
/// alias; a `null` value counts as absent.
pub open spec fn field_value(
    kvs: Seq<(Seq<char>, Option<Seq<char>>)>,
    k1: Seq<char>,
    k2: Seq<char>,
) -> Option<Seq<char>> {
    match lookup_key(kvs, k1) {
        Some(v) => v,
        None => match lookup_key(kvs, k2) {
            Some(v) => v,
            None => None,
        },
    }
}

/// Whether a member list carries a well-formed message: `username` exactly
/// once with a string value, the type field exactly once (under one of its
/// spellings) with a string value, each optional field at most once; unknown
/// keys are ignored.
pub open spec fn extract_msg(kvs: Seq<(Seq<char>, Option<Seq<char>>)>) -> Option<MsgModel> {
    if count_key(kvs, key_username()) == 1 && field_count(kvs, key_msg_type(), key_msg_type_alias())
        == 1 && field_count(kvs, key_audio_url(), key_audio_url_alias()) <= 1 && field_count(
        kvs,
        key_status_type(),
        key_status_type_alias(),
    ) <= 1 {
        match (lookup_key(kvs, key_username()), field_value(
            kvs,
            key_msg_type(),
            key_msg_type_alias(),
        )) {
            (Some(Some(u)), Some(ty)) => Some(
                MsgModel {
                    username: u,
                    msg_type: ty,
                    audio_url: field_value(kvs, key_audio_url(), key_audio_url_alias()),
                    status_type: field_value(kvs, key_status_type(), key_status_type_alias()),
                },
            ),
            _ => None,
        }
    } else {
        None
    }
}

/// The payload fields alone, for the consumer side of a frame; `username`
/// is not expected (an ingress body would also pass, its `username` ignored
/// as an unknown key).
pub open spec fn extract_payload(kvs: Seq<(Seq<char>, Option<Seq<char>>)>) -> Option<
    PayloadModel,
> {
    if field_count(kvs, key_msg_type(), key_msg_type_alias()) == 1 && field_count(
        kvs,
        key_audio_url(),
        key_audio_url_alias(),
    ) <= 1 && field_count(kvs, key_status_type(), key_status_type_alias()) <= 1 {
        match field_value(kvs, key_msg_type(), key_msg_type_alias()) {
            Some(ty) => Some(
                PayloadModel {
                    msg_type: ty,
                    audio_url: field_value(kvs, key_audio_url(), key_audio_url_alias()),
                    status_type: field_value(kvs, key_status_type(), key_status_type_alias()),
                },
            ),
            None => None,
        }
    } else {
        None
    }
}

/// What an ingress body decodes to, if anything.
pub open spec fn decode_msg_model(s: Seq<char>) -> Option<MsgModel> {
    match parse_document(s) {
        Some(kvs) => extract_msg(kvs),
        None => None,
    }
}

/// What a delivered frame decodes to on the consumer side, if anything.
pub open spec fn decode_payload_model(s: Seq<char>) -> Option<PayloadModel> {
    match parse_document(s) {
        Some(kvs) => extract_payload(kvs),
        None => None,
    }
}

// ---------------------------------------------------------------------------
// Parsing: execution
// ---------------------------------------------------------------------------

/// Relies on char::from_u32: `Some` exactly for Unicode scalar values, and
/// the returned character is the one with that value.
#[verifier::external_body]
fn char_from_u32(u: u32) -> (r: Option<char>)
    ensures
        r matches Some(c) ==> c as u32 == u,
        r is Some <==> (u < 0xD800 || (0xE000 <= u && u <= 0x10FFFF)),
{
    char::from_u32(u)
}

fn unescape_char_exec(c: char) -> (r: Option<char>)
    ensures
        r == unescape_char(c),
{
    if c == '"' {
        Some('"')
    } else if c == '\\' {
        Some('\\')
    } else if c == '/' {
        Some('/')
    } else if c == 'b' {
        Some('\u{8}')
    } else if c == 'f' {
        Some('\u{c}')
    } else if c == 'n' {
        Some('\n')
    } else if c == 'r' {
        Some('\r')
    } else if c == 't' {
        Some('\t')
    } else {
        None
    }
}

fn hex_val_exec(c: char) -> (r: Option<u32>)
    ensures
        r == hex_val(c),
        r matches Some(d) ==> d < 16,
{
    if c == '0' {
        Some(0)
    } else if c == '1' {
        Some(1)
    } else if c == '2' {
        Some(2)
    } else if c == '3' {
        Some(3)
    } else if c == '4' {
        Some(4)
    } else if c == '5' {
        Some(5)
    } else if c == '6' {
        Some(6)
    } else if c == '7' {
        Some(7)
    } else if c == '8' {
        Some(8)
    } else if c == '9' {
        Some(9)
    } else if c == 'a' || c == 'A' {
        Some(10)
    } else if c == 'b' || c == 'B' {
        Some(11)
    } else if c == 'c' || c == 'C' {
        Some(12)
    } else if c == 'd' || c == 'D' {
        Some(13)
    } else if c == 'e' || c == 'E' {
        Some(14)
    } else if c == 'f' || c == 'F' {
        Some(15)
    } else {
        None
    }
}

fn skip_ws_exec(v: &Vec<char>, i: usize) -> (j: usize)
    requires
        i <= v@.len(),
    ensures
        i <= j <= v@.len(),
        v@.skip(j as int) == skip_ws(v@.skip(i as int)),
{
    let mut j = i;
    while j < v.len() && (v[j] == ' ' || v[j] == '\t' || v[j] == '\n' || v[j] == '\r')
        invariant
            i <= j <= v@.len(),
            skip_ws(v@.skip(i as int)) == skip_ws(v@.skip(j as int)),
        decreases v@.len() - j,
    {
        proof {
            assert(v@.skip(j as int).drop_first() =~= v@.skip(j as int + 1));
        }
        j = j + 1;
    }
    j
}

/// The continuation of a partially parsed string: what the whole token's
/// content is, given what was already unescaped.
spec fn psb_cont(s: Seq<char>, acc: Seq<char>) -> Option<(Seq<char>, Seq<char>)> {
    match parse_string_body(s) {
        Some((c, r)) => Some((acc + c, r)),
        None => None,
    }
}

fn parse_string_body_exec(v: &Vec<char>, i: usize) -> (r: Option<(Vec<char>, usize)>)
    requires
        i <= v@.len(),
    ensures
        match r {
            Some(p) => i <= p.1 <= v@.len() && parse_string_body(v@.skip(i as int)) == Some(
                (p.0@, v@.skip(p.1 as int)),
            ),
            None => parse_string_body(v@.skip(i as int)) is None,
        },
{
    let mut out: Vec<char> = Vec::new();
    let mut j: usize = i;
    loop
        invariant
            i <= j <= v@.len(),
            psb_cont(v@.skip(j as int), out@) == parse_string_body(v@.skip(i as int)),
        decreases v@.len() - j,
    {
        if j == v.len() {
            return None;
        }
        let c = v[j];
        if c == '"' {
            proof {
                assert(v@.skip(j as int).drop_first() =~= v@.skip(j as int + 1));
                assert(out@ + Seq::<char>::empty() =~= out@);
            }
            return Some((out, j + 1));
        } else if c == '\\' {
            if j + 1 == v.len() {
                return None;
            }
            let e = v[j + 1];
            if e == 'u' {
                if v.len() - j < 6 {
                    return None;
                }
                let h1 = hex_val_exec(v[j + 2]);
                let h2 = hex_val_exec(v[j + 3]);
                let h3 = hex_val_exec(v[j + 4]);
                let h4 = hex_val_exec(v[j + 5]);
                match (h1, h2, h3, h4) {
                    (Some(a), Some(b), Some(cc), Some(d)) => {
                        let val: u32 = a * 0x1000 + b * 0x100 + cc * 16 + d;
                        let ghost s_old = v@.skip(j as int);
                        proof {
                            assert(val == hex4_val(s_old[2], s_old[3], s_old[4], s_old[5]));
                        }
                        if 0xD800 <= val && val < 0xE000 {
                            return None;
                        }
                        match char_from_u32(val) {
                            Some(c2) => {
                                let ghost prev = out@;
                                out.push(c2);
                                proof {
                                    vstd::utf8::char_u32_cast(c2, val);
                                    assert(s_old.skip(6) =~= v@.skip(j as int + 6));
                                    match parse_string_body(v@.skip(j as int + 6)) {
                                        Some((c3, r3)) => {
                                            assert(out@ + c3 =~= prev + (seq![(val as char)]
                                                + c3));
                                        },
                                        None => {},
                                    }
                                }
                                j = j + 6;
                            },
                            None => {
                                proof {
                                    assert(false);
                                }
                                return None;
                            },
                        }
                    },
                    _ => {
                        return None;
                    },
                }
            } else {
                match unescape_char_exec(e) {
                    Some(u) => {
                        let ghost prev = out@;
                        out.push(u);
                        proof {
                            assert(v@.skip(j as int).skip(2) =~= v@.skip(j as int + 2));
                            match parse_string_body(v@.skip(j as int + 2)) {
                                Some((c3, r3)) => {
                                    assert(out@ + c3 =~= prev + (seq![u] + c3));
                                },
                                None => {},
                            }
                        }
                        j = j + 2;
                    },
                    None => {
                        return None;
                    },
                }
            }
        } else if (c as u32) < 32 {
            return None;
        } else {
            let ghost prev = out@;
            out.push(c);
            proof {
                assert(v@.skip(j as int).drop_first() =~= v@.skip(j as int + 1));
                match parse_string_body(v@.skip(j as int + 1)) {
                    Some((c3, r3)) => {
                        assert(out@ + c3 =~= prev + (seq![c] + c3));
                    },
                    None => {},
                }
            }
            j = j + 1;
        }
    }
}

fn parse_value_exec(v: &Vec<char>, i: usize) -> (r: Option<(Option<Vec<char>>, usize)>)
    requires
        i <= v@.len(),
    ensures
        match r {
            Some(p) => p.1 <= v@.len() && parse_value(v@.skip(i as int)) == Some(
                (
                    match p.0 {
                        Some(c) => Some(c@),
                        None => None,
                    },
                    v@.skip(p.1 as int),
                ),
            ),
            None => parse_value(v@.skip(i as int)) is None,
        },
{
    let t = skip_ws_exec(v, i);
    let ghost ts = v@.skip(t as int);
    if t < v.len() && v[t] == '"' {
        match parse_string_body_exec(v, t + 1) {
            Some((c, j)) => {
                proof {
                    assert(ts.drop_first() =~= v@.skip(t as int + 1));
                }
                Some((Some(c), j))
            },
            None => {
                proof {
                    assert(ts.drop_first() =~= v@.skip(t as int + 1));
                }
                None
            },
        }
    } else if v.len() - t >= 4 && v[t] == 'n' && v[t + 1] == 'u' && v[t + 2] == 'l' && v[t + 3]
        == 'l' {
        proof {
            assert(ts.skip(4) =~= v@.skip(t as int + 4));
        }
        Some((None, t + 4))
    } else {
        None
    }
}

fn parse_members_exec(v: &Vec<char>, i: usize) -> (r: Option<
    (Vec<(Vec<char>, Option<Vec<char>>)>, usize),
>)
    requires
        i <= v@.len(),
    ensures
        match r {
            Some(p) => p.1 <= v@.len() && parse_members(v@.skip(i as int)) == Some(
                (kvs_view(p.0@), v@.skip(p.1 as int)),
            ),
            None => parse_members(v@.skip(i as int)) is None,
        },
    decreases v@.len() - i,
{
    let t = skip_ws_exec(v, i);
    let ghost ts = v@.skip(t as int);
    if t == v.len() || v[t] != '"' {
        return None;
    }
    proof {
        assert(ts.drop_first() =~= v@.skip(t as int + 1));
    }
    let (key, j1) = match parse_string_body_exec(v, t + 1) {
        None => {
            return None;
        },
        Some(p) => p,
    };
    let j2 = skip_ws_exec(v, j1);
    if j2 == v.len() || v[j2] != ':' {
        return None;
    }
    proof {
        assert(v@.skip(j2 as int).drop_first() =~= v@.skip(j2 as int + 1));
    }
    let (value, j3) = match parse_value_exec(v, j2 + 1) {
        None => {
            return None;
        },
        Some(p) => p,
    };
    let j4 = skip_ws_exec(v, j3);
    proof {
        lemma_skip_ws_len(v@.skip(i as int));
        lemma_parse_string_body_len(ts.drop_first());
        lemma_skip_ws_len(v@.skip(j1 as int));
        lemma_parse_value_len(v@.skip(j2 as int + 1));
        lemma_skip_ws_len(v@.skip(j3 as int));
    }
    if j4 < v.len() && v[j4] == ',' {
        proof {
            assert(v@.skip(j4 as int).drop_first() =~= v@.skip(j4 as int + 1));
        }
        match parse_members_exec(v, j4 + 1) {
            None => None,
            Some((mut rest, j5)) => {
                let ghost rest_snap = rest@;
                let ghost kv0 = kv_view((key, value));
                rest.insert(0, (key, value));
                proof {
                    assert(kvs_view(rest@) =~= seq![kv0] + kvs_view(rest_snap));
                }
                Some((rest, j5))
            },
        }
    } else if j4 < v.len() && v[j4] == '}' {
        proof {
            assert(v@.skip(j4 as int).drop_first() =~= v@.skip(j4 as int + 1));
        }
        let mut one: Vec<(Vec<char>, Option<Vec<char>>)> = Vec::new();
        let ghost kv0 = kv_view((key, value));
        one.push((key, value));
        proof {
            assert(kvs_view(one@) =~= seq![kv0]);
        }
        Some((one, j4 + 1))
    } else {
        None
    }
}

/// The view of one parsed member.
spec fn kv_view(p: (Vec<char>, Option<Vec<char>>)) -> (Seq<char>, Option<Seq<char>>) {
    (
        p.0@,
        match p.1 {
            Some(x) => Some(x@),
            None => None,
        },
    )
}

/// The view of a parsed member list.
spec fn kvs_view(kvs: Seq<(Vec<char>, Option<Vec<char>>)>) -> Seq<(Seq<char>, Option<Seq<char>>)> {
    kvs.map_values(|p: (Vec<char>, Option<Vec<char>>)| kv_view(p))
}

fn chars_eq(a: &Vec<char>, b: &Vec<char>) -> (r: bool)
    ensures
        r == (a@ == b@),
{
    if a.len() != b.len() {
        return false;
    }
    let mut i: usize = 0;
    while i < a.len()
        invariant
            i <= a@.len(),
            a@.len() == b@.len(),
            forall|j: int| 0 <= j < i ==> a@[j] == b@[j],
        decreases a@.len() - i,
    {
        if a[i] != b[i] {
            return false;
        }
        i = i + 1;
    }
    proof {
        assert(a@ =~= b@);
    }
    true
}

fn copy_chars(v: &Vec<char>) -> (r: Vec<char>)
    ensures
        r@ == v@,
{
    let mut r: Vec<char> = Vec::new();
    let mut i: usize = 0;
    while i < v.len()
        invariant
            i <= v@.len(),
            r@ == v@.take(i as int),
        decreases v@.len() - i,
    {
        r.push(v[i]);
        proof {
            assert(v@.take(i as int).push(v@[i as int]) =~= v@.take(i + 1));
        }
        i = i + 1;
    }
    proof {
        assert(v@.take(v@.len() as int) =~= v@);
    }
    r
}

spec fn opt_view(v: Option<Vec<char>>) -> Option<Seq<char>> {
    match v {
        Some(x) => Some(x@),
        None => None,
    }
}

fn count_key_exec(kvs: &Vec<(Vec<char>, Option<Vec<char>>)>, k: &Vec<char>) -> (n: usize)
    ensures
        n == count_key(kvs_view(kvs@), k@),
        n <= kvs@.len(),
{
    let ghost whole = kvs_view(kvs@);
    let mut n: usize = 0;
    let mut i: usize = 0;
    proof {
        assert(whole.skip(0) =~= whole);
    }
    while i < kvs.len()
        invariant
            i <= kvs@.len(),
            n <= i,
            whole == kvs_view(kvs@),
            count_key(whole, k@) == n + count_key(whole.skip(i as int), k@),
        decreases kvs@.len() - i,
    {
        proof {
            assert(whole.skip(i as int).drop_first() =~= whole.skip(i as int + 1));
            assert(whole.skip(i as int)[0] == whole[i as int]);
        }
        if chars_eq(&kvs[i].0, k) {
            n = n + 1;
        }
        i = i + 1;
    }
    proof {
        assert(whole.skip(kvs@.len() as int) =~= Seq::<(Seq<char>, Option<Seq<char>>)>::empty());
    }
    n
}

fn lookup_key_exec(kvs: &Vec<(Vec<char>, Option<Vec<char>>)>, k: &Vec<char>) -> (r: Option<
    Option<Vec<char>>,
>)
    ensures
        match r {
            Some(v) => lookup_key(kvs_view(kvs@), k@) == Some(opt_view(v)),
            None => lookup_key(kvs_view(kvs@), k@) is None,
        },
{
    let ghost whole = kvs_view(kvs@);
    let mut i: usize = 0;
    proof {
        assert(whole.skip(0) =~= whole);
    }
    while i < kvs.len()
        invariant
            i <= kvs@.len(),
            whole == kvs_view(kvs@),
            lookup_key(whole, k@) == lookup_key(whole.skip(i as int), k@),
        decreases kvs@.len() - i,
    {
        proof {
            assert(whole.skip(i as int).drop_first() =~= whole.skip(i as int + 1));
            assert(whole.skip(i as int)[0] == whole[i as int]);
        }
        if chars_eq(&kvs[i].0, k) {
            let value = match &kvs[i].1 {
                Some(x) => Some(copy_chars(x)),
                None => None,
            };
            return Some(value);
        }
        i = i + 1;
    }
    proof {
        assert(whole.skip(kvs@.len() as int) =~= Seq::<(Seq<char>, Option<Seq<char>>)>::empty());
    }
    None
}

fn field_value_exec(
    kvs: &Vec<(Vec<char>, Option<Vec<char>>)>,
    k1: &Vec<char>,
    k2: &Vec<char>,
) -> (r: Option<Vec<char>>)
    ensures
        opt_view(r) == field_value(kvs_view(kvs@), k1@, k2@),
{
    match lookup_key_exec(kvs, k1) {
        Some(v) => v,
        None => match lookup_key_exec(kvs, k2) {
            Some(v) => v,
            None => None,
        },
    }
}

fn parse_document_exec(v: &Vec<char>) -> (r: Option<Vec<(Vec<char>, Option<Vec<char>>)>>)
    ensures
        match r {
            Some(kvs) => parse_document(v@) == Some(kvs_view(kvs@)),
            None => parse_document(v@) is None,
        },
{
    proof {
        assert(v@.skip(0) =~= v@);
    }
    let t = skip_ws_exec(v, 0);
    let ghost ts = v@.skip(t as int);
    if t == v.len() || v[t] != '{' {
        return None;
    }
    proof {
        assert(ts.drop_first() =~= v@.skip(t as int + 1));
    }
    let u = skip_ws_exec(v, t + 1);
    if u < v.len() && v[u] == '}' {
        proof {
            assert(v@.skip(u as int).drop_first() =~= v@.skip(u as int + 1));
        }
        let j = skip_ws_exec(v, u + 1);
        if j == v.len() {
            let empty_kvs: Vec<(Vec<char>, Option<Vec<char>>)> = Vec::new();
            proof {
                assert(kvs_view(empty_kvs@) =~= Seq::<(Seq<char>, Option<Seq<char>>)>::empty());
            }
            return Some(empty_kvs);
        } else {
            return None;
        }
    }
    match parse_members_exec(v, t + 1) {
        None => None,
        Some((kvs, j)) => {
            let j2 = skip_ws_exec(v, j);
            if j2 == v.len() {
                Some(kvs)
            } else {
                None
            }
        },
    }
}

// ---------------------------------------------------------------------------
// Decoding
// ---------------------------------------------------------------------------

/// Decode an ingress body into a message: exactly the bodies on which
/// [`decode_msg_model`] yields a value are accepted, and the decoded message
/// is that value; every other body is refused as [`ServerError::Json`].
pub fn decode_msg(body: &str) -> (r: Result<Msg, ServerError>)
    ensures
        r is Ok <==> decode_msg_model(body@) is Some,
        r matches Ok(m) ==> decode_msg_model(body@) == Some(m@),
        r matches Err(e) ==> e == ServerError::Json,
{
    let v = chars_of(body);
    let kvs = match parse_document_exec(&v) {
        None => {
            return Err(ServerError::Json);
        },
        Some(kvs) => kvs,
    };
    let k_user = chars_of("username");
    let k_ty = chars_of("msgType");
    let k_ty2 = chars_of("msg_type");
    let k_au = chars_of("audioUrl");
    let k_au2 = chars_of("audio_url");
    let k_st = chars_of("statusType");
    let k_st2 = chars_of("status_type");
    proof {
        reveal_strlit("username");
        reveal_strlit("msgType");
        reveal_strlit("msg_type");
        reveal_strlit("audioUrl");
        reveal_strlit("audio_url");
        reveal_strlit("statusType");
        reveal_strlit("status_type");
        assert(k_user@ =~= key_username());
        assert(k_ty@ =~= key_msg_type());
        assert(k_ty2@ =~= key_msg_type_alias());
        assert(k_au@ =~= key_audio_url());
        assert(k_au2@ =~= key_audio_url_alias());
        assert(k_st@ =~= key_status_type());
        assert(k_st2@ =~= key_status_type_alias());
    }
    let n_user = count_key_exec(&kvs, &k_user);
    let n_ty = count_key_exec(&kvs, &k_ty);
    let n_ty2 = count_key_exec(&kvs, &k_ty2);
    let n_au = count_key_exec(&kvs, &k_au);
    let n_au2 = count_key_exec(&kvs, &k_au2);
    let n_st = count_key_exec(&kvs, &k_st);
    let n_st2 = count_key_exec(&kvs, &k_st2);
    let type_once = (n_ty == 1 && n_ty2 == 0) || (n_ty == 0 && n_ty2 == 1);
    let audio_at_most_once = n_au == 0 && n_au2 <= 1 || n_au == 1 && n_au2 == 0;
    let status_at_most_once = n_st == 0 && n_st2 <= 1 || n_st == 1 && n_st2 == 0;
    if !(n_user == 1 && type_once && audio_at_most_once && status_at_most_once) {
        return Err(ServerError::Json);
    }
    let user = match lookup_key_exec(&kvs, &k_user) {
        Some(Some(u)) => u,
        _ => {
            return Err(ServerError::Json);
        },
    };
    let ty = match field_value_exec(&kvs, &k_ty, &k_ty2) {
        Some(t) => t,
        None => {
            return Err(ServerError::Json);
        },
    };
    let au = field_value_exec(&kvs, &k_au, &k_au2);
    let st = field_value_exec(&kvs, &k_st, &k_st2);
    let m = Msg {
        username: string_from_chars(&user),
        type_: string_from_chars(&ty),
        audio_url: match &au {
            Some(x) => Some(string_from_chars(x)),
            None => None,
        },
        status_type: match &st {
            Some(x) => Some(string_from_chars(x)),
            None => None,
        },
    };
    Ok(m)
}

/// Decode a delivered frame on the consumer side: exactly the frames on
/// which [`decode_payload_model`] yields a value are accepted, and the
/// decoded payload is that value.
pub fn decode_payload(frame: &str) -> (r: Result<Payload, ServerError>)
    ensures
        r is Ok <==> decode_payload_model(frame@) is Some,
        r matches Ok(p) ==> decode_payload_model(frame@) == Some(p@),
        r matches Err(e) ==> e == ServerError::Json,
{
    let v = chars_of(frame);
    let kvs = match parse_document_exec(&v) {
        None => {
            return Err(ServerError::Json);
        },
        Some(kvs) => kvs,
    };
    let k_ty = chars_of("msgType");
    let k_ty2 = chars_of("msg_type");
    let k_au = chars_of("audioUrl");
    let k_au2 = chars_of("audio_url");
    let k_st = chars_of("statusType");
    let k_st2 = chars_of("status_type");
    proof {
        reveal_strlit("msgType");
        reveal_strlit("msg_type");
        reveal_strlit("audioUrl");
        reveal_strlit("audio_url");
        reveal_strlit("statusType");
        reveal_strlit("status_type");
        assert(k_ty@ =~= key_msg_type());
        assert(k_ty2@ =~= key_msg_type_alias());
        assert(k_au@ =~= key_audio_url());
        assert(k_au2@ =~= key_audio_url_alias());
        assert(k_st@ =~= key_status_type());
        assert(k_st2@ =~= key_status_type_alias());
    }
    let n_ty = count_key_exec(&kvs, &k_ty);
    let n_ty2 = count_key_exec(&kvs, &k_ty2);
    let n_au = count_key_exec(&kvs, &k_au);
    let n_au2 = count_key_exec(&kvs, &k_au2);
    let n_st = count_key_exec(&kvs, &k_st);
    let n_st2 = count_key_exec(&kvs, &k_st2);
    let type_once = (n_ty == 1 && n_ty2 == 0) || (n_ty == 0 && n_ty2 == 1);
    let audio_at_most_once = n_au == 0 && n_au2 <= 1 || n_au == 1 && n_au2 == 0;
    let status_at_most_once = n_st == 0 && n_st2 <= 1 || n_st == 1 && n_st2 == 0;
    if !(type_once && audio_at_most_once && status_at_most_once) {
        return Err(ServerError::Json);
    }
    let ty = match field_value_exec(&kvs, &k_ty, &k_ty2) {
        Some(t) => t,
        None => {
            return Err(ServerError::Json);
        },
    };
    let au = field_value_exec(&kvs, &k_au, &k_au2);
    let st = field_value_exec(&kvs, &k_st, &k_st2);
    let p = Payload {
        type_: string_from_chars(&ty),
        audio_url: match &au {
            Some(x) => Some(string_from_chars(x)),
            None => None,
        },
        status_type: match &st {
            Some(x) => Some(string_from_chars(x)),
            None => None,
        },
    };
    Ok(p)
}

// ---------------------------------------------------------------------------
// Round trip
// ---------------------------------------------------------------------------

proof fn lemma_hex_digit_val(d: u32)
    requires
        d < 16,
    ensures
        hex_val(hex_digit(d)) == Some(d),
{
}

/// Unescaping undoes escaping: an escaped string followed by its closing
/// quote parses back to the original content, leaving the rest untouched.
proof fn lemma_parse_escaped(x: Seq<char>, rest: Seq<char>)
    ensures
        parse_string_body(escape_string(x) + seq!['"'] + rest) == Some((x, rest)),
    decreases x.len(),
{
    let s = escape_string(x) + seq!['"'] + rest;
    if x.len() == 0 {
        assert(s =~= seq!['"'] + rest);
        assert(s[0] == '"');
        assert(s.drop_first() =~= rest);
    } else {
        let c = x[0];
        let u = c as u32;
        let x1 = x.drop_first();
        let tail = escape_string(x1) + seq!['"'] + rest;
        assert(s =~= escape_char(c) + tail);
        lemma_parse_escaped(x1, rest);
        assert(seq![c] + x1 =~= x);
        if c == '"' || c == '\\' || c == '\u{8}' || c == '\u{c}' || c == '\n' || c == '\r' || c
            == '\t' {
            assert(s[0] == '\\');
            assert(s.len() >= 2);
            assert(s[1] != 'u');
            assert(unescape_char(s[1]) == Some(c));
            assert(s.skip(2) =~= tail);
        } else if u < 32 {
            assert(s[0] == '\\');
            assert(s[1] == 'u');
            assert(s.len() >= 6);
            assert(s[2] == '0' && s[3] == '0');
            assert(s[4] == hex_digit(u / 16) && s[5] == hex_digit(u % 16));
            lemma_hex_digit_val(u / 16);
            lemma_hex_digit_val(u % 16);
            assert(hex4_val(s[2], s[3], s[4], s[5]) == 16 * (u / 16) + u % 16);
            assert(16 * (u / 16) + u % 16 == u);
            assert(!(0xD800 <= u < 0xE000));
            vstd::utf8::char_u32_cast(c, u);
            assert(((u as u32) as char) == c);
            assert(s.skip(6) =~= tail);
        } else {
            assert(s[0] == c);
            assert(c != '"' && c != '\\' && !((c as u32) < 32));
            assert(s.drop_first() =~= tail);
        }
    }
}

/// A skipped-whitespace step for strings that start with a non-space.
proof fn lemma_skip_ws_none(s: Seq<char>)
    requires
        s.len() > 0,
        !is_ws(s[0]),
    ensures
        skip_ws(s) == s,
{
}

/// An encoded string-or-null value parses back to itself.
proof fn lemma_parse_value_encoded(v: Option<Seq<char>>, rest: Seq<char>)
    ensures
        parse_value(json_value(v) + rest) == Some((v, rest)),
{
    let s = json_value(v) + rest;
    match v {
        Some(x) => {
            assert(s[0] == '"');
            lemma_skip_ws_none(s);
            assert(s.drop_first() =~= escape_string(x) + seq!['"'] + rest);
            lemma_parse_escaped(x, rest);
        },
        None => {
            assert(s =~= null_chars() + rest);
            assert(s[0] == 'n' && s[1] == 'u' && s[2] == 'l' && s[3] == 'l');
            lemma_skip_ws_none(s);
            assert(s.len() >= 4);
            assert(s.skip(4) =~= rest);
        },
    }
}

/// One encoded `key : value` member, ended by `,` or `}`, parses to that
/// member followed by whatever the input after the separator yields.
proof fn lemma_parse_member(key: Seq<char>, value: Option<Seq<char>>, sep: char, rest: Seq<char>)
    requires
        sep == ',' || sep == '}',
    ensures
        parse_members(quoted(key) + seq![':'] + json_value(value) + seq![sep] + rest) == (if sep
            == ',' {
            match parse_members(rest) {
                Some((ms, r)) => Some((seq![(key, value)] + ms, r)),
                None => None,
            }
        } else {
            Some((seq![(key, value)], rest))
        }),
{
    let s = quoted(key) + seq![':'] + json_value(value) + seq![sep] + rest;
    let r1 = seq![':'] + json_value(value) + seq![sep] + rest;
    let rv = seq![sep] + rest;
    assert(s[0] == '"');
    lemma_skip_ws_none(s);
    assert(s.drop_first() =~= escape_string(key) + seq!['"'] + r1);
    lemma_parse_escaped(key, r1);
    assert(r1[0] == ':');
    lemma_skip_ws_none(r1);
    assert(r1.drop_first() =~= json_value(value) + rv);
    lemma_parse_value_encoded(value, rv);
    assert(rv[0] == sep);
    lemma_skip_ws_none(rv);
    assert(rv.drop_first() =~= rest);
    if sep == ',' {
        match parse_members(rest) {
            Some((ms, r)) => {
                assert(parse_members(s) == Some((seq![(key, value)] + ms, r)));
            },
            None => {
                assert(parse_members(s) is None);
            },
        }
    } else {
        assert(parse_members(s) == Some((seq![(key, value)], rest)));
    }
}

/// Round trip: the frame encoded for a payload decodes, on the consumer
/// side, to exactly that payload — same type, same optional fields, the
/// alias-free canonical spellings notwithstanding.
#[verifier::rlimit(100)]
pub proof fn lemma_round_trip(p: PayloadModel)
    ensures
        decode_payload_model(encode_payload_model(p)) == Some(p),
{
    let s = encode_payload_model(p);
    let kv1 = (key_msg_type(), Some(p.msg_type));
    let kv2 = (key_audio_url(), p.audio_url);
    let kv3 = (key_status_type(), p.status_type);
    let m3 = quoted(key_status_type()) + seq![':'] + json_value(p.status_type) + seq!['}']
        + Seq::<char>::empty();
    let m2 = quoted(key_audio_url()) + seq![':'] + json_value(p.audio_url) + seq![','] + m3;
    let m1 = quoted(key_msg_type()) + seq![':'] + quoted(p.msg_type) + seq![','] + m2;
    lemma_parse_member(key_status_type(), p.status_type, '}', Seq::<char>::empty());
    assert(parse_members(m3) == Some((seq![kv3], Seq::<char>::empty())));
    lemma_parse_member(key_audio_url(), p.audio_url, ',', m3);
    assert(parse_members(m2) == Some((seq![kv2] + seq![kv3], Seq::<char>::empty())));
    lemma_parse_member(key_msg_type(), Some(p.msg_type), ',', m2);
    let kvs = seq![kv1] + (seq![kv2] + seq![kv3]);
    assert(parse_members(m1) == Some((kvs, Seq::<char>::empty())));
    assert(s =~= seq!['{'] + m1);
    assert(s[0] == '{');
    lemma_skip_ws_none(s);
    assert(s.drop_first() =~= m1);
    assert(m1[0] == '"');
    lemma_skip_ws_none(m1);
    assert(parse_object(s) == Some((kvs, Seq::<char>::empty())));
    assert(parse_document(s) == Some(kvs));
    assert(kvs =~= seq![kv1, kv2, kv3]);
    lemma_extract_payload_three(p);
}

/// Extraction over the three members an encoded frame parses to.
proof fn lemma_extract_payload_three(p: PayloadModel)
    ensures
        extract_payload(seq![(key_msg_type(), Some(p.msg_type)), (key_audio_url(), p.audio_url), (key_status_type(), p.status_type)])
            == Some(p),
{
    let kv1 = (key_msg_type(), Some(p.msg_type));
    let kv2 = (key_audio_url(), p.audio_url);
    let kv3 = (key_status_type(), p.status_type);
    let kvs = seq![kv1, kv2, kv3];
    let t2 = seq![kv2, kv3];
    let t3 = seq![kv3];
    assert(kvs.drop_first() =~= t2);
    assert(t2.drop_first() =~= t3);
    assert(t3.drop_first() =~= Seq::<(Seq<char>, Option<Seq<char>>)>::empty());
    reveal_with_fuel(count_key, 5);
    reveal_with_fuel(lookup_key, 5);
    assert(key_msg_type() != key_audio_url());
    assert(key_msg_type() != key_status_type());
    assert(key_msg_type_alias() != key_msg_type());
    assert(key_msg_type_alias() != key_audio_url()) by {
        assert(key_msg_type_alias()[0] == 'm');
        assert(key_audio_url()[0] == 'a');
    }
    assert(key_msg_type_alias() != key_status_type());
    assert(key_audio_url() != key_status_type());
    assert(key_audio_url_alias() != key_msg_type());
    assert(key_audio_url_alias() != key_audio_url());
    assert(key_audio_url_alias() != key_status_type());
    assert(key_status_type_alias() != key_msg_type());
    assert(key_status_type_alias() != key_audio_url());
    assert(key_status_type_alias() != key_status_type());
    assert(count_key(kvs, key_msg_type()) == 1);
    assert(count_key(kvs, key_msg_type_alias()) == 0);
    assert(count_key(kvs, key_audio_url()) == 1);
    assert(count_key(kvs, key_audio_url_alias()) == 0);
    assert(count_key(kvs, key_status_type()) == 1);
    assert(count_key(kvs, key_status_type_alias()) == 0);
    assert(lookup_key(kvs, key_msg_type()) == Some(Some(p.msg_type)));
    assert(lookup_key(kvs, key_audio_url()) == Some(p.audio_url));
    assert(lookup_key(kvs, key_status_type()) == Some(p.status_type));
}

} // verus!
