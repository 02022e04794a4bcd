//! The dissemination message that carries a lock action between peers, and
//! its wire format: the protobuf encoding of
//!
//! ```text
//! message SwarmMessage { oneof payload { LockMessage lock_message = 1; } }
//! message LockMessage { string name = 1; Action action = 2; string message_id = 3; }
//! ```
//!
//! in its canonical form: fields in order, fields with the default value left
//! out, every varint as short as it can be. Only that form is read back, so
//! each byte string stands for at most one message.

use crate::event::{action_code, Action};
use crate::varint::{
    lemma_split_at, lemma_starts_with_after_key, lemma_varint_prefix_unique, put_varint, read_varint_at, starts_with, varint_bytes,
};
use vstd::prelude::*;
use vstd::utf8::{decode_utf8, encode_utf8, valid_utf8};

verus! {

/// The key of the `lock_message` field of the outer message.
pub const PAYLOAD_KEY: u8 = 0x0A;

/// The key of the `name` field.
pub const NAME_KEY: u8 = 0x0A;

/// The key of the `action` field.
pub const ACTION_KEY: u8 = 0x10;

/// The key of the `message_id` field.
pub const ID_KEY: u8 = 0x1A;

/// A lock action on its way between peers. `action` is the action's wire
/// number, kept as it came so that a number of no known action can be told
/// apart; `message_id` is a token drawn afresh for each message.
#[derive(Clone, Debug, PartialEq, Eq)]
pub struct LockMessage {
    pub name: String,
    pub action: i32,
    pub message_id: String,
}

/// A length-delimited field: left out when `payload` is empty.
pub open spec fn text_field(key: u8, payload: Seq<u8>) -> Seq<u8> {
    if payload.len() == 0 {
        seq![]
    } else {
        seq![key] + varint_bytes(payload.len() as u64) + payload
    }
}

/// An integer field: left out when `value` is zero. A negative value travels
/// as its 64-bit two's complement.
pub open spec fn int_field(key: u8, value: i32) -> Seq<u8> {
    if value == 0 {
        seq![]
    } else {
        seq![key] + varint_bytes(value as u64)
    }
}

/// The encoding of the inner message.
pub open spec fn body_bytes(name: Seq<char>, action: i32, id: Seq<char>) -> Seq<u8> {
    text_field(NAME_KEY, encode_utf8(name)) + int_field(ACTION_KEY, action) + text_field(
        ID_KEY,
        encode_utf8(id),
    )
}

/// The encoding of a whole message.
pub open spec fn message_bytes(name: Seq<char>, action: i32, id: Seq<char>) -> Seq<u8> {
    seq![PAYLOAD_KEY] + varint_bytes(body_bytes(name, action, id).len() as u64) + body_bytes(
        name,
        action,
        id,
    )
}

/// The length of a message token.
pub const MESSAGE_ID_LEN: usize = 21;

/// Whether `c` may stand in a message token: an ASCII letter or digit, `-` or
/// `_`.
pub open spec fn is_token_char(c: char) -> bool {
    ||| 'a' <= c <= 'z'
    ||| 'A' <= c <= 'Z'
    ||| '0' <= c <= '9'
    ||| c == '-'
    ||| c == '_'
}

/// Relies on `nano_id::base64`: as many characters as asked for, each drawn
/// from the system's random source out of a URL-safe alphabet of 64 letters,
/// digits, `-` and `_`.
#[verifier::external_body]
fn fresh_token() -> (r: String)
    ensures
        r@.len() == MESSAGE_ID_LEN,
        forall|i: int| 0 <= i < r@.len() ==> is_token_char(#[trigger] r@[i]),
{
    nano_id::base64::<MESSAGE_ID_LEN>()
}

impl LockMessage {
    /// The message's encoding.
    pub open spec fn wire(&self) -> Seq<u8> {
        message_bytes(self.name@, self.action, self.message_id@)
    }

    /// A message that asks for `action` on the lock named `name`, under a
    /// freshly drawn token.
    pub fn new(action: Action, name: String) -> (r: LockMessage)
        ensures
            r.name == name,
            r.action == action_code(action),
            r.message_id@.len() == MESSAGE_ID_LEN,
            forall|i: int|
                0 <= i < r.message_id@.len() ==> is_token_char(#[trigger] r.message_id@[i]),
    {
        LockMessage { name, action: action.code(), message_id: fresh_token() }
    }
}

/// Whether `bytes` is the encoding of `m`, and `m` asks for `action`.
pub open spec fn is_request(bytes: Seq<u8>, m: LockMessage, action: Action) -> bool {
    m.wire() == bytes && m.action == action_code(action)
}

/// Two text fields with the same key and non-empty payloads, each followed
/// by anything, spell the same bytes only when the payloads agree.
proof fn lemma_text_field_unique(key: u8, e1: Seq<u8>, t1: Seq<u8>, e2: Seq<u8>, t2: Seq<u8>)
    requires
        text_field(key, e1) + t1 == text_field(key, e2) + t2,
        0 < e1.len() <= u64::MAX,
        0 < e2.len() <= u64::MAX,
    ensures
        e1 == e2,
        t1 == t2,
{
    let s = text_field(key, e1) + t1;
    let v1 = varint_bytes(e1.len() as u64);
    let v2 = varint_bytes(e2.len() as u64);
    let rest = s.subrange(1, s.len() as int);
    assert(rest.subrange(0, v1.len() as int) =~= v1);
    assert(rest =~= (text_field(key, e2) + t2).subrange(1, s.len() as int));
    assert(rest.subrange(0, v2.len() as int) =~= v2);
    lemma_varint_prefix_unique(rest, e1.len() as u64, e2.len() as u64);
    let k = 1 + v1.len();
    assert(e1 =~= s.subrange(k as int, (k + e1.len()) as int));
    assert(e2 =~= (text_field(key, e2) + t2).subrange(k as int, (k + e2.len()) as int));
    assert(t1 =~= s.subrange((k + e1.len()) as int, s.len() as int));
    assert(t2 =~= (text_field(key, e2) + t2).subrange((k + e2.len()) as int, s.len() as int));
}

/// Two integer fields with the same key and non-zero values, each followed
/// by anything, spell the same bytes only when the values agree.
proof fn lemma_int_field_unique(key: u8, a1: i32, t1: Seq<u8>, a2: i32, t2: Seq<u8>)
    requires
        int_field(key, a1) + t1 == int_field(key, a2) + t2,
        a1 != 0,
        a2 != 0,
    ensures
        a1 == a2,
        t1 == t2,
{
    let s = int_field(key, a1) + t1;
    let v1 = varint_bytes(a1 as u64);
    let v2 = varint_bytes(a2 as u64);
    let rest = s.subrange(1, s.len() as int);
    assert(rest.subrange(0, v1.len() as int) =~= v1);
    assert(rest =~= (int_field(key, a2) + t2).subrange(1, s.len() as int));
    assert(rest.subrange(0, v2.len() as int) =~= v2);
    lemma_varint_prefix_unique(rest, a1 as u64, a2 as u64);
    assert(((a1 as u64) as i32) == a1) by (bit_vector);
    assert(((a2 as u64) as i32) == a2) by (bit_vector);
    assert(t1 =~= s.subrange((1 + v1.len()) as int, s.len() as int));
    assert(t2 =~= (int_field(key, a2) + t2).subrange((1 + v2.len()) as int, s.len() as int));
}

/// The inner encoding determines the fields.
proof fn lemma_body_injective(n1: Seq<char>, a1: i32, i1: Seq<char>, n2: Seq<char>, a2: i32, i2: Seq<char>)
    requires
        body_bytes(n1, a1, i1) == body_bytes(n2, a2, i2),
        body_bytes(n1, a1, i1).len() <= u64::MAX,
    ensures
        n1 == n2,
        a1 == a2,
        i1 == i2,
{
    let (e1, f1) = (encode_utf8(n1), encode_utf8(i1));
    let (e2, f2) = (encode_utf8(n2), encode_utf8(i2));
    let tail1 = int_field(ACTION_KEY, a1) + text_field(ID_KEY, f1);
    let tail2 = int_field(ACTION_KEY, a2) + text_field(ID_KEY, f2);
    lemma_text_field_head(NAME_KEY, e1);
    lemma_text_field_head(NAME_KEY, e2);
    lemma_int_field_head(ACTION_KEY, a1);
    lemma_int_field_head(ACTION_KEY, a2);
    lemma_text_field_head(ID_KEY, f1);
    lemma_text_field_head(ID_KEY, f2);
    let whole = body_bytes(n1, a1, i1);
    assert(whole =~= text_field(NAME_KEY, e1) + tail1);
    assert(whole =~= text_field(NAME_KEY, e2) + tail2);
    lemma_split_at(whole, text_field(NAME_KEY, e1), tail1);
    lemma_split_at(whole, text_field(NAME_KEY, e2), tail2);
    lemma_split_at(tail1, int_field(ACTION_KEY, a1), text_field(ID_KEY, f1));
    lemma_split_at(tail2, int_field(ACTION_KEY, a2), text_field(ID_KEY, f2));
    if e1.len() > 0 && e2.len() > 0 {
        lemma_text_field_unique(NAME_KEY, e1, tail1, e2, tail2);
    } else if e1.len() > 0 || e2.len() > 0 {
        assert(false);
    }
    assert(tail1 == tail2);
    let g1 = text_field(ID_KEY, f1);
    let g2 = text_field(ID_KEY, f2);
    if a1 != 0 && a2 != 0 {
        lemma_int_field_unique(ACTION_KEY, a1, g1, a2, g2);
    } else if a1 != 0 || a2 != 0 {
        assert(false);
    }
    assert(g1 == g2);
    if f1.len() > 0 && f2.len() > 0 {
        assert(g1 + Seq::<u8>::empty() =~= g1);
        assert(g2 + Seq::<u8>::empty() =~= g2);
        lemma_text_field_unique(ID_KEY, f1, Seq::<u8>::empty(), f2, Seq::<u8>::empty());
    } else if f1.len() > 0 || f2.len() > 0 {
        assert(false);
    }
    vstd::utf8::encode_utf8_decode_utf8(n1);
    vstd::utf8::encode_utf8_decode_utf8(n2);
    vstd::utf8::encode_utf8_decode_utf8(i1);
    vstd::utf8::encode_utf8_decode_utf8(i2);
    if e1.len() == 0 {
        assert(e1 =~= e2);
    }
    if f1.len() == 0 {
        assert(f1 =~= f2);
    }
}

/// Two messages with the same encoding agree in every field: the encoding of
/// a message is read back as that message and no other.
pub proof fn lemma_wire_injective(m: LockMessage, n: LockMessage)
    requires
        m.wire() == n.wire(),
        m.wire().len() <= u64::MAX,
    ensures
        m.name@ == n.name@,
        m.action == n.action,
        m.message_id@ == n.message_id@,
{
    let b1 = body_bytes(m.name@, m.action, m.message_id@);
    let b2 = body_bytes(n.name@, n.action, n.message_id@);
    let v1 = varint_bytes(b1.len() as u64);
    let v2 = varint_bytes(b2.len() as u64);
    let s = m.wire();
    let rest = s.subrange(1, s.len() as int);
    assert(rest =~= v1 + b1);
    assert(rest =~= v2 + b2);
    lemma_split_at(rest, v1, b1);
    lemma_split_at(rest, v2, b2);
    lemma_varint_prefix_unique(rest, b1.len() as u64, b2.len() as u64);
    assert(b1 == b2);
    lemma_body_injective(m.name@, m.action, m.message_id@, n.name@, n.action, n.message_id@);
}

/// Relies on `std::str::from_utf8`: the text that the bytes spell when they
/// are valid UTF-8, and nothing otherwise.
#[verifier::external_body]
fn text_from_utf8(bytes: &[u8]) -> (r: Option<String>)
    ensures
        valid_utf8(bytes@) ==> r.is_some() && r.unwrap()@ == decode_utf8(bytes@),
        !valid_utf8(bytes@) ==> r is None,
{
    match std::str::from_utf8(bytes) {
        Ok(s) => Some(s.to_owned()),
        Err(_) => None,
    }
}

/// Appends the field `key` holding the UTF-8 bytes of `s`, unless `s` is
/// empty.
fn put_text_field(buf: &mut Vec<u8>, key: u8, s: &String)
    ensures
        final(buf)@ == old(buf)@ + text_field(key, encode_utf8(s@)),
{
    let bytes = s.as_str().as_bytes();
    if bytes.len() > 0 {
        buf.push(key);
        put_varint(buf, bytes.len() as u64);
        let mut i: usize = 0;
        let ghost start = buf@;
        while i < bytes.len()
            invariant
                0 <= i <= bytes@.len(),
                buf@ == start + bytes@.subrange(0, i as int),
            decreases bytes@.len() - i,
        {
            buf.push(bytes[i]);
            i = i + 1;
            proof {
                assert(bytes@.subrange(0, i as int) =~= bytes@.subrange(0, i - 1) + seq![
                    bytes@[i - 1],
                ]);
            }
        }
        proof {
            assert(bytes@.subrange(0, i as int) =~= bytes@);
        }
    }
    proof {
        assert(final(buf)@ =~= old(buf)@ + text_field(key, encode_utf8(s@)));
    }
}

/// Encodes `msg` in the canonical wire form.
pub fn encode(msg: &LockMessage) -> (r: Vec<u8>)
    ensures
        r@ == msg.wire(),
{
    let mut body: Vec<u8> = Vec::new();
    put_text_field(&mut body, NAME_KEY, &msg.name);
    if msg.action != 0 {
        body.push(ACTION_KEY);
        put_varint(&mut body, msg.action as u64);
    }
    put_text_field(&mut body, ID_KEY, &msg.message_id);
    assert(body@ =~= body_bytes(msg.name@, msg.action, msg.message_id@));
    let mut out: Vec<u8> = Vec::new();
    out.push(PAYLOAD_KEY);
    put_varint(&mut out, body.len() as u64);
    let ghost head = out@;
    let mut i: usize = 0;
    while i < body.len()
        invariant
            0 <= i <= body@.len(),
            out@ == head + body@.subrange(0, i as int),
        decreases body@.len() - i,
    {
        out.push(body[i]);
        i = i + 1;
        proof {
            assert(body@.subrange(0, i as int) =~= body@.subrange(0, i - 1) + seq![body@[i - 1]]);
        }
    }
    proof {
        assert(body@.subrange(0, i as int) =~= body@);
        assert(out@ =~= msg.wire());
    }
    out
}

/// A text field is absent exactly when its payload is empty, and begins with
/// its key when present.
proof fn lemma_text_field_head(key: u8, e: Seq<u8>)
    ensures
        text_field(key, e).len() == 0 <==> e.len() == 0,
        text_field(key, e).len() > 0 ==> text_field(key, e)[0] == key,
{
}

/// An integer field is absent exactly when its value is zero, and begins with
/// its key when present.
proof fn lemma_int_field_head(key: u8, a: i32)
    ensures
        int_field(key, a).len() == 0 <==> a == 0,
        int_field(key, a).len() > 0 ==> int_field(key, a)[0] == key,
{
}

/// Reads the text field with key `key` that starts at `pos`.
fn read_text_at(buf: &[u8], pos: usize, key: u8) -> (r: Option<(String, usize)>)
    requires
        pos < buf@.len(),
        buf@[pos as int] == key,
    ensures
        r matches Some((s, end)) ==> pos < end <= buf@.len() && encode_utf8(s@).len() > 0
            && buf@.subrange(pos as int, end as int) == text_field(key, encode_utf8(s@)),
        forall|t: Seq<char>|
            encode_utf8(t).len() > 0 && #[trigger] starts_with(
                buf@.subrange(pos as int, buf@.len() as int),
                text_field(key, encode_utf8(t)),
            ) ==> (r matches Some((s, end)) && s@ == t && end == pos + text_field(
                key,
                encode_utf8(t),
            ).len()),
{
    let len = buf.len();
    proof {
        assert forall|t: Seq<char>|
            encode_utf8(t).len() > 0 && #[trigger] starts_with(
                buf@.subrange(pos as int, len as int),
                text_field(key, encode_utf8(t)),
            ) implies starts_with(
            buf@.subrange(pos + 1, len as int),
            varint_bytes(encode_utf8(t).len() as u64),
        ) by {
            let e = encode_utf8(t);
            lemma_starts_with_after_key(
                buf@.subrange(pos as int, len as int),
                key,
                varint_bytes(e.len() as u64),
                e,
            );
            assert(buf@.subrange(pos as int, len as int).subrange(1, len - pos) =~= buf@.subrange(
                pos + 1,
                len as int,
            ));
        }
    }
    match read_varint_at(buf, pos + 1) {
        None => None,
        Some((n, start)) => {
            if n == 0 || n > (len - start) as u64 {
                None
            } else {
                let end = start + n as usize;
                let payload = &buf[start..end];
                proof {
                    assert forall|t: Seq<char>|
                        encode_utf8(t).len() > 0 && #[trigger] starts_with(
                            buf@.subrange(pos as int, len as int),
                            text_field(key, encode_utf8(t)),
                        ) implies payload@ == encode_utf8(t) by {
                        let e = encode_utf8(t);
                        let vb = varint_bytes(e.len() as u64);
                        let f = text_field(key, e);
                        assert(starts_with(buf@.subrange(pos + 1, len as int), vb));
                        assert(start == pos + 1 + vb.len());
                        assert(f =~= seq![key] + vb + e);
                        assert(payload@ =~= buf@.subrange(pos as int, len as int).subrange(
                            0,
                            f.len() as int,
                        ).subrange(1 + vb.len() as int, f.len() as int));
                        assert(f.subrange(1 + vb.len() as int, f.len() as int) =~= e);
                    }
                }
                match text_from_utf8(payload) {
                    None => {
                        proof {
                            assert forall|t: Seq<char>|
                                encode_utf8(t).len() > 0 && #[trigger] starts_with(
                                    buf@.subrange(pos as int, len as int),
                                    text_field(key, encode_utf8(t)),
                                ) implies false by {
                                vstd::utf8::encode_utf8_valid_utf8(t);
                            }
                        }
                        None
                    },
                    Some(s) => {
                        proof {
                            vstd::utf8::decode_utf8_encode_utf8(payload@);
                            assert(buf@.subrange(pos as int, end as int) =~= seq![key]
                                + buf@.subrange(pos + 1, start as int) + payload@);
                            assert forall|t: Seq<char>|
                                encode_utf8(t).len() > 0 && #[trigger] starts_with(
                                    buf@.subrange(pos as int, len as int),
                                    text_field(key, encode_utf8(t)),
                                ) implies s@ == t && end == pos + text_field(
                                key,
                                encode_utf8(t),
                            ).len() by {
                                vstd::utf8::encode_utf8_decode_utf8(t);
                            }
                        }
                        Some((s, end))
                    },
                }
            }
        },
    }
}

/// Reads the integer field with key `key` that starts at `pos`.
fn read_int_at(buf: &[u8], pos: usize, key: u8) -> (r: Option<(i32, usize)>)
    requires
        pos < buf@.len(),
        buf@[pos as int] == key,
    ensures
        r matches Some((a, end)) ==> pos < end <= buf@.len() && a != 0 && buf@.subrange(
            pos as int,
            end as int,
        ) == int_field(key, a),
        forall|a: i32|
            a != 0 && #[trigger] starts_with(
                buf@.subrange(pos as int, buf@.len() as int),
                int_field(key, a),
            ) ==> r == Some::<(i32, usize)>((a, (pos + int_field(key, a).len()) as usize)),
{
    let len = buf.len();
    proof {
        assert forall|a: i32|
            a != 0 && #[trigger] starts_with(
                buf@.subrange(pos as int, len as int),
                int_field(key, a),
            ) implies starts_with(buf@.subrange(pos + 1, len as int), varint_bytes(a as u64)) by {
            lemma_starts_with_after_key(
                buf@.subrange(pos as int, len as int),
                key,
                varint_bytes(a as u64),
                Seq::<u8>::empty(),
            );
            assert(seq![key] + varint_bytes(a as u64) + Seq::<u8>::empty() =~= int_field(key, a));
            assert(buf@.subrange(pos as int, len as int).subrange(1, len - pos) =~= buf@.subrange(
                pos + 1,
                len as int,
            ));
        }
    }
    match read_varint_at(buf, pos + 1) {
        None => None,
        Some((v, end)) => {
            let a = #[verifier::truncate] (v as i32);
            proof {
                assert forall|b: i32| #[trigger] ((b as u64) as i32) == b by {
                    assert(((b as u64) as i32) == b) by (bit_vector);
                }
                assert(buf@.subrange(pos as int, end as int) =~= seq![key] + buf@.subrange(
                    pos + 1,
                    end as int,
                ));
            }
            if a != 0 && #[verifier::truncate] (a as u64) == v {
                Some((a, end))
            } else {
                None
            }
        },
    }
}

/// Reads the inner message, which fills `buf` from `start` to its end.
#[verifier::rlimit(40)]
fn decode_body(buf: &[u8], start: usize) -> (r: Option<(String, i32, String)>)
    requires
        start <= buf@.len(),
    ensures
        r matches Some((n, a, i)) ==> buf@.subrange(start as int, buf@.len() as int) == body_bytes(
            n@,
            a,
            i@,
        ),
        forall|n: Seq<char>, a: i32, i: Seq<char>|
            #[trigger] body_bytes(n, a, i) == buf@.subrange(start as int, buf@.len() as int)
                ==> r is Some,
{
    let len = buf.len();
    let ghost whole = buf@.subrange(start as int, len as int);
    let ghost wanted = exists|n: Seq<char>, a: i32, i: Seq<char>|
        #[trigger] body_bytes(n, a, i) == whole;
    let ghost (gn, ga, gi) = if wanted {
        choose|n: Seq<char>, a: i32, i: Seq<char>| #[trigger] body_bytes(n, a, i) == whole
    } else {
        (Seq::<char>::empty(), 0i32, Seq::<char>::empty())
    };
    let ghost f1 = text_field(NAME_KEY, encode_utf8(gn));
    let ghost f2 = int_field(ACTION_KEY, ga);
    let ghost f3 = text_field(ID_KEY, encode_utf8(gi));
    proof {
        assert(encode_utf8(Seq::<char>::empty()) =~= Seq::<u8>::empty());
        lemma_text_field_head(NAME_KEY, encode_utf8(gn));
        lemma_int_field_head(ACTION_KEY, ga);
        lemma_text_field_head(ID_KEY, encode_utf8(gi));
        lemma_split_at(f2 + f3, f2, f3);
        if wanted {
            assert(whole == f1 + (f2 + f3)) by {
                assert(f1 + f2 + f3 =~= f1 + (f2 + f3));
            }
            lemma_split_at(whole, f1, f2 + f3);
        }
    }
    let mut pos = start;
    let mut name = String::new();
    if pos < len && buf[pos] == NAME_KEY {
        proof {
            if wanted {
                assert(whole[0] == buf@[pos as int]);
            }
        }
        match read_text_at(buf, pos, NAME_KEY) {
            None => {
                return None;
            },
            Some((s, end)) => {
                name = s;
                pos = end;
            },
        }
    } else {
        proof {
            if wanted && f1.len() > 0 {
                assert(whole[0] == buf@[pos as int]);
            }
        }
    }
    let ghost pos1 = pos;
    proof {
        if wanted {
            assert(pos == start + f1.len());
            assert(buf@.subrange(pos as int, len as int) =~= whole.subrange(
                f1.len() as int,
                whole.len() as int,
            ));
            lemma_split_at(buf@.subrange(pos as int, len as int), f2, f3);
        }
        assert(buf@.subrange(start as int, pos as int) =~= text_field(
            NAME_KEY,
            encode_utf8(name@),
        ));
    }
    let mut action: i32 = 0;
    if pos < len && buf[pos] == ACTION_KEY {
        proof {
            if wanted {
                assert(buf@.subrange(pos as int, len as int)[0] == buf@[pos as int]);
            }
        }
        match read_int_at(buf, pos, ACTION_KEY) {
            None => {
                return None;
            },
            Some((a, end)) => {
                action = a;
                pos = end;
            },
        }
    } else {
        proof {
            if wanted && f2.len() > 0 {
                assert(buf@.subrange(pos as int, len as int)[0] == buf@[pos as int]);
            }
        }
    }
    let ghost pos2 = pos;
    proof {
        if wanted {
            assert(pos == pos1 + f2.len());
            assert(buf@.subrange(pos as int, len as int) =~= buf@.subrange(
                pos1 as int,
                len as int,
            ).subrange(f2.len() as int, len - pos1));
            lemma_split_at(buf@.subrange(pos as int, len as int), f3, Seq::<u8>::empty());
        }
        assert(buf@.subrange(pos1 as int, pos as int) =~= int_field(ACTION_KEY, action));
    }
    let mut id = String::new();
    if pos < len && buf[pos] == ID_KEY {
        proof {
            if wanted {
                assert(buf@.subrange(pos as int, len as int)[0] == buf@[pos as int]);
                assert(f3 + Seq::<u8>::empty() =~= f3);
            }
        }
        match read_text_at(buf, pos, ID_KEY) {
            None => {
                return None;
            },
            Some((s, end)) => {
                id = s;
                pos = end;
            },
        }
    } else {
        proof {
            if wanted && f3.len() > 0 {
                assert(f3 + Seq::<u8>::empty() =~= f3);
                assert(buf@.subrange(pos as int, len as int)[0] == buf@[pos as int]);
            }
        }
    }
    proof {
        if wanted {
            assert(f3 + Seq::<u8>::empty() =~= f3);
            assert(pos == pos2 + f3.len());
        }
        assert(buf@.subrange(pos2 as int, pos as int) =~= text_field(ID_KEY, encode_utf8(id@)));
    }
    if pos == len {
        proof {
            assert(buf@.subrange(start as int, len as int) =~= buf@.subrange(start as int, pos1 as int)
                + buf@.subrange(pos1 as int, pos2 as int) + buf@.subrange(pos2 as int, len as int));
        }
        Some((name, action, id))
    } else {
        None
    }
}

/// Decodes a message from its canonical wire form; `None` for any byte
/// string that is not the encoding of a message.
pub fn decode(bytes: &[u8]) -> (r: Option<LockMessage>)
    ensures
        r matches Some(m) ==> m.wire() == bytes@,
        forall|n: LockMessage|
            #[trigger] n.wire() == bytes@ ==> (r matches Some(m) && m.name@ == n.name@ && m.action
                == n.action && m.message_id@ == n.message_id@),
{
    if bytes.len() == 0 || bytes[0] != PAYLOAD_KEY {
        return None;
    }
    proof {
        assert forall|m: LockMessage| #[trigger] m.wire() == bytes@ implies starts_with(
            bytes@.subrange(1, bytes@.len() as int),
            varint_bytes(body_bytes(m.name@, m.action, m.message_id@).len() as u64),
        ) by {
            let body = body_bytes(m.name@, m.action, m.message_id@);
            let vb = varint_bytes(body.len() as u64);
            assert(bytes@.subrange(1, bytes@.len() as int).subrange(0, vb.len() as int) =~= vb);
        }
    }
    match read_varint_at(bytes, 1) {
        None => None,
        Some((n, start)) => {
            if n != (bytes.len() - start) as u64 {
                proof {
                    assert forall|m: LockMessage| #[trigger] m.wire() != bytes@ by {
                        if m.wire() == bytes@ {
                            let body = body_bytes(m.name@, m.action, m.message_id@);
                            assert(start == 1 + varint_bytes(body.len() as u64).len());
                        }
                    }
                }
                return None;
            }
            proof {
                assert forall|m: LockMessage| #[trigger] m.wire() == bytes@ implies body_bytes(
                    m.name@,
                    m.action,
                    m.message_id@,
                ) == bytes@.subrange(start as int, bytes@.len() as int) by {
                    let body = body_bytes(m.name@, m.action, m.message_id@);
                    let vb = varint_bytes(body.len() as u64);
                    assert(start == 1 + vb.len() as int);
                    assert(bytes@.subrange(start as int, bytes@.len() as int) =~= body);
                }
            }
            match decode_body(bytes, start) {
                None => None,
                Some((name, action, message_id)) => {
                    let msg = LockMessage { name, action, message_id };
                    proof {
                        assert(bytes@ =~= seq![PAYLOAD_KEY] + bytes@.subrange(1, start as int)
                            + bytes@.subrange(start as int, bytes@.len() as int));
                        assert forall|n: LockMessage| #[trigger] n.wire() == bytes@ implies msg.name@
                            == n.name@ && msg.action == n.action && msg.message_id@
                            == n.message_id@ by {
                            lemma_wire_injective(msg, n);
                        }
                    }
                    Some(msg)
                },
            }
        },
    }
}

} // verus!
