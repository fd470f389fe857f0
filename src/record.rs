//! The record carried by a frame: a chat message written as the JSON object
//! `{"from":...,"content":...}`, UTF-8 encoded and zero-padded.
use vstd::prelude::*;
use vstd::utf8::{decode_utf8, encode_scalar, encode_utf8, encode_utf8_decode_utf8, encode_utf8_valid_utf8, valid_utf8};
use crate::codec::{
    is_payload, lemma_frame_round_trip, lemma_padding_invariance, lemma_payload_unique, pad_frame,
    padded, strip_frame, zero_free, zeros, FrameError,
};

verus! {

/// One chat message: the address it came from, as text, and what was said.
#[derive(Debug)]
pub struct Message {
    pub from: String,
    pub content: String,
}

impl Message {
    pub fn new(from: &str, content: &str) -> (r: Message)
        ensures
            r.from@ == from@,
            r.content@ == content@,
    {
        Message { from: from.to_owned(), content: content.to_owned() }
    }
}

/// The JSON string literal that serde_json writes for `s`, quotes included.
pub uninterp spec fn json_string_of(s: Seq<char>) -> Seq<char>;

/// The string value stored under `key` in the JSON object written in `text`,
/// if `text` is such an object and that value is a string.
pub uninterp spec fn json_field_of(text: Seq<char>, key: Seq<char>) -> Option<Seq<char>>;

/// No character of `s` is NUL.
pub open spec fn nul_free(s: Seq<char>) -> bool {
    forall|i: int| 0 <= i < s.len() ==> s[i] != '\0'
}

/// Relies on `serde_json::to_string` for a `str`: it writes the string as a
/// quoted, escaped JSON literal into a `Vec`, which cannot fail, and its
/// escape table escapes every byte below 0x20, NUL included.
#[verifier::external_body]
fn quote_json(s: &str) -> (r: String)
    ensures
        r@ == json_string_of(s@),
        nul_free(r@),
{
    match serde_json::to_string(s) {
        Ok(t) => t,
        Err(_) => String::new(),
    }
}

/// Relies on `serde_json::from_str` into a `serde_json::Value`, then on
/// `Value::get` and `Value::as_str` to read one string field.
#[verifier::external_body]
fn json_str_field(text: &str, key: &str) -> (r: Option<String>)
    ensures
        match r {
            Some(s) => json_field_of(text@, key@) == Some(s@),
            None => json_field_of(text@, key@) is None,
        },
{
    let v: serde_json::Value = serde_json::from_str(text).ok()?;
    v.get(key)?.as_str().map(|s| s.to_owned())
}

/// Relies on `String::from_utf8`: it succeeds exactly on valid UTF-8, and the
/// string then holds those bytes.
#[verifier::external_body]
fn utf8_text(b: Vec<u8>) -> (r: Option<String>)
    ensures
        r is Some <==> valid_utf8(b@),
        r matches Some(s) ==> encode_utf8(s@) == b@,
{
    String::from_utf8(b).ok()
}

/// The record text around the two field literals `fq` and `cq`.
pub open spec fn record_chars(fq: Seq<char>, cq: Seq<char>) -> Seq<char> {
    "{\"from\":"@ + fq + ",\"content\":"@ + cq + "}"@
}

/// The frame of `frame_size` bytes that carries the message with origin
/// `from` and text `content`.
pub open spec fn frame_of(from: Seq<char>, content: Seq<char>, frame_size: nat) -> Seq<u8> {
    padded(encode_utf8(record_chars(json_string_of(from), json_string_of(content))), frame_size)
}

/// What a payload reads as: its origin and content, or why it cannot be read.
pub open spec fn read_payload(p: Seq<u8>) -> Result<(Seq<char>, Seq<char>), FrameError> {
    if !valid_utf8(p) {
        Err(FrameError::Malformed)
    } else {
        match (
            json_field_of(decode_utf8(p), "from"@),
            json_field_of(decode_utf8(p), "content"@),
        ) {
            (Some(a), Some(c)) => Ok((a, c)),
            _ => Err(FrameError::Malformed),
        }
    }
}

/// Writes the record text around two JSON string literals.
pub fn record_text(fq: &str, cq: &str) -> (r: String)
    ensures
        r@ == record_chars(fq@, cq@),
{
    let mut s = "{\"from\":".to_owned();
    s.append(fq);
    s.append(",\"content\":");
    s.append(cq);
    s.append("}");
    s
}

/// Frames the record made of two JSON string literals.
pub fn frame_quoted(fq: &str, cq: &str, frame_size: usize) -> (r: Result<Vec<u8>, FrameError>)
    ensures
        ({
            let b = encode_utf8(record_chars(fq@, cq@));
            &&& b.len() > frame_size <==> r == Err::<Vec<u8>, FrameError>(FrameError::TooLarge)
            &&& b.len() <= frame_size && !zero_free(b) <==> r == Err::<Vec<u8>, FrameError>(
                FrameError::Malformed,
            )
            &&& r is Ok <==> b.len() <= frame_size && zero_free(b)
            &&& r matches Ok(f) ==> f@ == padded(b, frame_size as nat)
        }),
{
    let text = record_text(fq, cq);
    pad_frame(text.as_str().as_bytes(), frame_size)
}

/// The bytes of the record that carries origin `from` and text `content`.
pub open spec fn record_bytes(from: Seq<char>, content: Seq<char>) -> Seq<u8> {
    encode_utf8(record_chars(json_string_of(from), json_string_of(content)))
}

/// Encodes `m` into one frame of `frame_size` bytes: its record, refused as
/// too large when it does not fit.
pub fn encode(m: &Message, frame_size: usize) -> (r: Result<Vec<u8>, FrameError>)
    ensures
        zero_free(record_bytes(m.from@, m.content@)),
        record_bytes(m.from@, m.content@).len() > frame_size <==> r == Err::<
            Vec<u8>,
            FrameError,
        >(FrameError::TooLarge),
        r is Ok <==> record_bytes(m.from@, m.content@).len() <= frame_size,
        r matches Ok(f) ==> f@ == frame_of(m.from@, m.content@, frame_size as nat) && f@.len()
            == frame_size,
{
    let fq = quote_json(m.from.as_str());
    let cq = quote_json(m.content.as_str());
    proof {
        lemma_record_nul_free(fq@, cq@);
        lemma_nul_free_encode(record_chars(fq@, cq@));
    }
    frame_quoted(fq.as_str(), cq.as_str(), frame_size)
}

/// The record around two NUL-free literals is NUL-free.
proof fn lemma_record_nul_free(fq: Seq<char>, cq: Seq<char>)
    requires
        nul_free(fq),
        nul_free(cq),
    ensures
        nul_free(record_chars(fq, cq)),
{
    reveal_strlit("{\"from\":");
    reveal_strlit(",\"content\":");
    reveal_strlit("}");
    let r = record_chars(fq, cq);
    assert forall|i: int| 0 <= i < r.len() implies r[i] != '\0' by {
        let n1 = "{\"from\":"@.len();
        let n2 = n1 + fq.len();
        let n3 = n2 + ",\"content\":"@.len();
        let n4 = n3 + cq.len();
        if i < n1 {
        } else if i < n2 {
            assert(r[i] == fq[i - n1]);
        } else if i < n3 {
        } else if i < n4 {
            assert(r[i] == cq[i - n3]);
        } else {
        }
    }
}

/// One scalar other than NUL encodes without a zero byte.
proof fn lemma_scalar_zero_free(c: char)
    requires
        c != '\0',
    ensures
        zero_free(encode_scalar(c as u32)),
{
    let s = c as u32;
    assert(s != 0);
    assert(forall|x: u8| (0x80u8 | x) != 0u8) by (bit_vector);
    assert(forall|x: u8| (0xC0u8 | x) != 0u8) by (bit_vector);
    assert(forall|x: u8| (0xE0u8 | x) != 0u8) by (bit_vector);
    assert(forall|x: u8| (0xF0u8 | x) != 0u8) by (bit_vector);
    assert(s != 0 && s <= 0x7F ==> (s & 0x7F) != 0) by (bit_vector);
    assert(s <= 0x7F ==> (s & 0x7F) < 0x80) by (bit_vector);
}

/// Characters other than NUL encode in UTF-8 without a zero byte.
proof fn lemma_nul_free_encode(c: Seq<char>)
    requires
        nul_free(c),
    ensures
        zero_free(encode_utf8(c)),
    decreases c.len(),
{
    if c.len() > 0 {
        lemma_scalar_zero_free(c[0]);
        lemma_nul_free_encode(c.drop_first());
        let e = encode_scalar(c[0] as u32);
        let rest = encode_utf8(c.drop_first());
        assert(encode_utf8(c) == e + rest);
        assert forall|i: int| 0 <= i < (e + rest).len() implies (e + rest)[i] != 0u8 by {
            if i >= e.len() {
                assert((e + rest)[i] == rest[i - e.len()]);
            }
        }
    }
}

/// Reads the text of a payload as a record.
pub fn read_record(p: Vec<u8>) -> (r: Result<Message, FrameError>)
    ensures
        match read_payload(p@) {
            Ok((a, c)) => r matches Ok(m) && m.from@ == a && m.content@ == c,
            Err(e) => r == Err::<Message, FrameError>(e),
        },
{
    proof {
        broadcast use encode_utf8_decode_utf8;
    }
    let text = match utf8_text(p) {
        Some(t) => t,
        None => return Err(FrameError::Malformed),
    };
    let from = match json_str_field(text.as_str(), "from") {
        Some(a) => a,
        None => return Err(FrameError::Malformed),
    };
    match json_str_field(text.as_str(), "content") {
        Some(content) => Ok(Message { from, content }),
        None => Err(FrameError::Malformed),
    }
}

/// Decodes the first `frame_size` bytes of `frame` into a message.
pub fn decode(frame: &[u8], frame_size: usize) -> (r: Result<Message, FrameError>)
    ensures
        frame@.len() < frame_size <==> r == Err::<Message, FrameError>(FrameError::Truncated),
        frame@.len() >= frame_size ==> forall|p: Seq<u8>|
            is_payload(frame@.take(frame_size as int), p) ==> match read_payload(p) {
                Ok((a, c)) => r matches Ok(m) && m.from@ == a && m.content@ == c,
                Err(e) => r == Err::<Message, FrameError>(e),
            },
{
    match strip_frame(frame, frame_size) {
        Err(e) => Err(e),
        Ok(p) => {
            let ghost pv = p@;
            let r = read_record(p);
            proof {
                assert forall|q: Seq<u8>| is_payload(frame@.take(frame_size as int), q) implies q
                    == pv by {
                    lemma_payload_unique(frame@.take(frame_size as int), pv, q);
                }
            }
            r
        }
    }
}

/// A frame carries its record unchanged: `encode` gives a frame exactly when
/// the record fits, the record has no zero byte, and when serde_json reads back
/// the two fields it wrote, the frame reads as the message.
pub proof fn lemma_message_round_trip(from: Seq<char>, content: Seq<char>, frame_size: nat)
    requires
        record_bytes(from, content).len() <= frame_size,
        zero_free(record_bytes(from, content)),
        json_field_of(record_chars(json_string_of(from), json_string_of(content)), "from"@)
            == Some(from),
        json_field_of(record_chars(json_string_of(from), json_string_of(content)), "content"@)
            == Some(content),
    ensures
        frame_of(from, content, frame_size).len() == frame_size,
        forall|p: Seq<u8>|
            is_payload(frame_of(from, content, frame_size), p) ==> read_payload(p) == Ok::<
                (Seq<char>, Seq<char>),
                FrameError,
            >((from, content)),
{
    let text = record_chars(json_string_of(from), json_string_of(content));
    let b = encode_utf8(text);
    lemma_frame_round_trip(b, frame_size);
    encode_utf8_valid_utf8(text);
    encode_utf8_decode_utf8(text);
}

/// Zero bytes after a frame change nothing it reads as: the longer frame has
/// the same payload, which reads as the same message or the same error.
pub proof fn lemma_decode_padding_invariance(f: Seq<u8>, p: Seq<u8>, extra: nat)
    requires
        is_payload(f, p),
    ensures
        forall|q: Seq<u8>|
            is_payload(f + zeros(extra), q) ==> q == p && read_payload(q) == read_payload(p),
{
    lemma_padding_invariance(f, p, extra);
    assert forall|q: Seq<u8>| is_payload(f + zeros(extra), q) implies q == p && read_payload(q)
        == read_payload(p) by {
        lemma_payload_unique(f + zeros(extra), p, q);
    }
}

} // verus!
