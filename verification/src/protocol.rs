//! The wire-framing codec: a raw line decodes into a typed frame, and a reply
//! frame encodes into the exact bytes that go back on the socket.
//!
//! The wire protocol is line oriented. A client line is one of
//! `PUB <topic> <message...>`, `SUB <topic>` or `QUIT` (the command word is
//! matched ASCII-case-insensitively); a reply line is the reply's name,
//! then ` <content>` if content is present, then ` <topic>` if the topic is
//! non-empty, then a newline. Content stands before topic: that order is a
//! fixed wire contract.

use crate::result::InvalidMessage;
use vstd::prelude::*;
use vstd::slice::{slice_index_get, slice_subrange, slice_to_vec};
use vstd::string::StringExecFns;

verus! {

/// The identity of one connection. Every frame carries the id of the client
/// it originated from, so replies can be routed to that client's mailbox.
pub type ClientId = u128;

/// A topic name, as raw wire bytes.
pub type Topic = Vec<u8>;

/// Optional message content, as raw wire bytes.
pub type Content = Option<Vec<u8>>;

/// The kind of a frame: the three client commands (PUB, SUB, QUIT) and the
/// two broker replies (OK, UPDATE); QUIT also serves as the final reply.
#[derive(Debug, Clone, Copy, PartialEq, Eq, Structural)]
#[allow(clippy::upper_case_acronyms)]
pub enum MessageType {
    PUB,
    SUB,
    UPDATE,
    OK,
    QUIT,
}

/// A frame is a message received off the wire, or replied: a message type,
/// the topic name, optional content, and the id of the originating client.
#[derive(Debug, Clone)]
pub struct Frame(pub MessageType, pub Topic, pub Content, pub ClientId);

/// The mathematical value of a [`Frame`].
#[verifier::ext_equal]
pub struct FrameView {
    pub typ: MessageType,
    pub topic: Seq<u8>,
    pub content: Option<Seq<u8>>,
    pub sender: ClientId,
}

/// The mathematical value of optional content.
pub open spec fn content_view(c: Option<Vec<u8>>) -> Option<Seq<u8>> {
    match c {
        Some(v) => Some(v@),
        None => None,
    }
}

impl View for Frame {
    type V = FrameView;

    open spec fn view(&self) -> FrameView {
        FrameView { typ: self.0, topic: self.1@, content: content_view(self.2), sender: self.3 }
    }
}

/// The wire name of the PUB command, `"PUB"`.
pub open spec fn pub_name() -> Seq<u8> {
    seq![80u8, 85u8, 66u8]
}

/// The wire name of the SUB command, `"SUB"`.
pub open spec fn sub_name() -> Seq<u8> {
    seq![83u8, 85u8, 66u8]
}

/// The wire name of the QUIT command and reply, `"QUIT"`.
pub open spec fn quit_name() -> Seq<u8> {
    seq![81u8, 85u8, 73u8, 84u8]
}

/// The wire name of the OK reply, `"OK"`.
pub open spec fn ok_name() -> Seq<u8> {
    seq![79u8, 75u8]
}

/// The wire name of the UPDATE reply, `"UPDATE"`.
pub open spec fn update_name() -> Seq<u8> {
    seq![85u8, 80u8, 68u8, 65u8, 84u8, 69u8]
}

/// The content of the OK reply to a publish: the command's name, `"Publish"`.
pub open spec fn publish_label() -> Seq<u8> {
    seq![80u8, 117u8, 98u8, 108u8, 105u8, 115u8, 104u8]
}

/// The content of the OK reply to a subscribe: the command's name, `"Subscribe"`.
pub open spec fn subscribe_label() -> Seq<u8> {
    seq![83u8, 117u8, 98u8, 115u8, 99u8, 114u8, 105u8, 98u8, 101u8]
}

/// The wire name of each message type.
pub open spec fn wire_name(t: MessageType) -> Seq<u8> {
    match t {
        MessageType::PUB => pub_name(),
        MessageType::SUB => sub_name(),
        MessageType::UPDATE => update_name(),
        MessageType::OK => ok_name(),
        MessageType::QUIT => quit_name(),
    }
}

/// ASCII upper-casing of one byte: letters `a`..`z` lose the case bit.
pub open spec fn upper_byte(b: u8) -> u8 {
    if 97 <= b && b <= 122 {
        (b - 32) as u8
    } else {
        b
    }
}

/// ASCII upper-casing of a byte sequence.
pub open spec fn upper(s: Seq<u8>) -> Seq<u8> {
    s.map_values(|b: u8| upper_byte(b))
}

/// Whether a byte is a UTF-8 continuation byte (`0x80..=0xBF`).
pub open spec fn is_continuation(b: u8) -> bool {
    0x80 <= b && b <= 0xBF
}

/// Whether the bytes are a well-formed UTF-8 encoding: each leading byte is
/// followed by the right number of continuation bytes, with the restricted
/// ranges that rule out overlong forms and surrogates.
pub open spec fn valid_utf8(s: Seq<u8>) -> bool
    decreases s.len(),
{
    if s.len() == 0 {
        true
    } else {
        let b0 = s[0];
        if b0 < 0x80 {
            valid_utf8(s.skip(1))
        } else if 0xC2 <= b0 && b0 <= 0xDF {
            s.len() >= 2 && is_continuation(s[1]) && valid_utf8(s.skip(2))
        } else if b0 == 0xE0 {
            s.len() >= 3 && 0xA0 <= s[1] && s[1] <= 0xBF && is_continuation(s[2]) && valid_utf8(
                s.skip(3),
            )
        } else if (0xE1 <= b0 && b0 <= 0xEC) || b0 == 0xEE || b0 == 0xEF {
            s.len() >= 3 && is_continuation(s[1]) && is_continuation(s[2]) && valid_utf8(s.skip(3))
        } else if b0 == 0xED {
            s.len() >= 3 && 0x80 <= s[1] && s[1] <= 0x9F && is_continuation(s[2]) && valid_utf8(
                s.skip(3),
            )
        } else if b0 == 0xF0 {
            s.len() >= 4 && 0x90 <= s[1] && s[1] <= 0xBF && is_continuation(s[2]) && is_continuation(
                s[3],
            ) && valid_utf8(s.skip(4))
        } else if 0xF1 <= b0 && b0 <= 0xF3 {
            s.len() >= 4 && is_continuation(s[1]) && is_continuation(s[2]) && is_continuation(s[3])
                && valid_utf8(s.skip(4))
        } else if b0 == 0xF4 {
            s.len() >= 4 && 0x80 <= s[1] && s[1] <= 0x8F && is_continuation(s[2]) && is_continuation(
                s[3],
            ) && valid_utf8(s.skip(4))
        } else {
            false
        }
    }
}

/// Splitting a line once at its first space: the part before the space and
/// the part after it, or nothing when the line holds no space.
pub open spec fn split_at_space(s: Seq<u8>) -> Option<(Seq<u8>, Seq<u8>)> {
    match s.index_of_first(32u8) {
        Some(i) => Some((s.subrange(0, i), s.subrange(i + 1, s.len() as int))),
        None => None,
    }
}

/// Why a line failed to decode.
pub enum DecodeFault {
    /// The line is not valid UTF-8 text.
    Encoding,
    /// The line holds no space and is not `QUIT`.
    NoSpace,
    /// A PUB line is missing the topic or the message.
    PubParts,
    /// The leading word is not a known command.
    UnknownType,
}

/// The details string that each decode fault carries.
pub open spec fn fault_details(f: DecodeFault) -> Seq<char> {
    match f {
        DecodeFault::Encoding => "invalid encoding"@,
        DecodeFault::NoSpace => "invalid message format - needs to be in format `PUB $topic` or `SUB $topic $optional_parameters"@,
        DecodeFault::PubParts => "invalid message format - needs to be in format `PUB $topic $message"@,
        DecodeFault::UnknownType => "Unknown message type"@,
    }
}

/// Which command word a line's leading token names, if any.
pub open spec fn spec_message_type(w: Seq<u8>) -> Option<MessageType> {
    if upper(w) == pub_name() {
        Some(MessageType::PUB)
    } else if upper(w) == sub_name() {
        Some(MessageType::SUB)
    } else {
        None
    }
}

/// What a raw line decodes to. The line must be valid text; a line that
/// upper-cases to exactly `QUIT` is the quit command; otherwise the first
/// space separates the command word from the rest. For `PUB` the rest splits
/// once more into the topic and the message (the message may hold spaces);
/// for `SUB` the topic is the first token of the rest.
pub open spec fn spec_decode(s: Seq<u8>, sender: ClientId) -> Result<FrameView, DecodeFault> {
    if !valid_utf8(s) {
        Err(DecodeFault::Encoding)
    } else if upper(s) == quit_name() {
        Ok(FrameView { typ: MessageType::QUIT, topic: Seq::empty(), content: None, sender })
    } else {
        match split_at_space(s) {
            None => Err(DecodeFault::NoSpace),
            Some((word, rest)) => match spec_message_type(word) {
                None => Err(DecodeFault::UnknownType),
                Some(MessageType::PUB) => match split_at_space(rest) {
                    None => Err(DecodeFault::PubParts),
                    Some((topic, message)) => Ok(
                        FrameView {
                            typ: MessageType::PUB,
                            topic,
                            content: Some(message),
                            sender,
                        },
                    ),
                },
                Some(_) => Ok(
                    FrameView {
                        typ: MessageType::SUB,
                        topic: match split_at_space(rest) {
                            None => rest,
                            Some((topic, _)) => topic,
                        },
                        content: None,
                        sender,
                    },
                ),
            },
        }
    }
}

/// The exact bytes a reply frame takes on the wire: the type's name, then
/// ` <content>` if content is present, then ` <topic>` if the topic is
/// non-empty, then a newline.
pub open spec fn spec_encode(f: FrameView) -> Seq<u8> {
    wire_name(f.typ) + (match f.content {
        Some(c) => seq![32u8] + c,
        None => Seq::<u8>::empty(),
    }) + (if f.topic.len() > 0 {
        seq![32u8] + f.topic
    } else {
        Seq::<u8>::empty()
    }) + seq![10u8]
}

/// ASCII upper-casing of one byte.
fn to_upper(b: u8) -> (r: u8)
    ensures
        r == upper_byte(b),
{
    if 97 <= b && b <= 122 {
        b - 32
    } else {
        b
    }
}

/// Whether the ASCII upper-casing of `s` is exactly `w`.
fn ascii_upper_eq(s: &[u8], w: &[u8]) -> (r: bool)
    ensures
        r == (upper(s@) == w@),
{
    if s.len() != w.len() {
        assert(upper(s@).len() == s@.len());
        return false;
    }
    let mut i: usize = 0;
    while i < s.len()
        invariant
            i <= s@.len(),
            s@.len() == w@.len(),
            forall|j: int| 0 <= j < i ==> upper_byte(s@[j]) == w@[j],
        decreases s@.len() - i,
    {
        if to_upper(*slice_index_get(s, i)) != *slice_index_get(w, i) {
            assert(upper(s@)[i as int] != w@[i as int]);
            return false;
        }
        i += 1;
    }
    assert(upper(s@) =~= w@);
    true
}

/// The index of the first space in `s`, if there is one.
fn find_space(s: &[u8]) -> (r: Option<usize>)
    ensures
        match r {
            Some(i) => i < s@.len() && s@[i as int] == 32 && s@.index_of_first(32u8) == Some(
                i as int,
            ),
            None => s@.index_of_first(32u8) == None::<int>,
        },
{
    proof {
        s@.index_of_first_ensures(32u8);
    }
    let mut i: usize = 0;
    while i < s.len()
        invariant
            i <= s@.len(),
            forall|j: int| 0 <= j < i ==> s@[j] != 32u8,
        decreases s@.len() - i,
    {
        if *slice_index_get(s, i) == 32 {
            proof {
                s@.index_of_first_ensures(32u8);
                assert(s@.contains(32u8)) by {
                    assert(s@[i as int] == 32u8);
                }
            }
            return Some(i);
        }
        i += 1;
    }
    proof {
        s@.index_of_first_ensures(32u8);
        assert(!s@.contains(32u8));
    }
    None
}

/// Whether the bytes are well-formed UTF-8, checked against [`valid_utf8`].
pub fn is_valid_utf8(s: &[u8]) -> (r: bool)
    ensures
        r == valid_utf8(s@),
{
    let n = s.len();
    let mut i: usize = 0;
    proof {
        assert(s@.skip(0) =~= s@);
    }
    while i < n
        invariant
            i <= n,
            n == s@.len(),
            valid_utf8(s@) == valid_utf8(s@.skip(i as int)),
        decreases n - i,
    {
        let ghost tail = s@.skip(i as int);
        let b0 = *slice_index_get(s, i);
        assert(tail[0] == b0);
        let step: usize = if b0 < 0x80 {
            1
        } else if 0xC2 <= b0 && b0 <= 0xDF {
            if n - i < 2 || !is_cont(*slice_index_get(s, i + 1)) {
                return false;
            }
            2
        } else if b0 == 0xE0 {
            if n - i < 3 {
                return false;
            }
            let b1 = *slice_index_get(s, i + 1);
            if !(0xA0 <= b1 && b1 <= 0xBF) || !is_cont(*slice_index_get(s, i + 2)) {
                return false;
            }
            3
        } else if (0xE1 <= b0 && b0 <= 0xEC) || b0 == 0xEE || b0 == 0xEF {
            if n - i < 3 || !is_cont(*slice_index_get(s, i + 1)) || !is_cont(
                *slice_index_get(s, i + 2),
            ) {
                return false;
            }
            3
        } else if b0 == 0xED {
            if n - i < 3 {
                return false;
            }
            let b1 = *slice_index_get(s, i + 1);
            if !(0x80 <= b1 && b1 <= 0x9F) || !is_cont(*slice_index_get(s, i + 2)) {
                return false;
            }
            3
        } else if b0 == 0xF0 {
            if n - i < 4 {
                return false;
            }
            let b1 = *slice_index_get(s, i + 1);
            if !(0x90 <= b1 && b1 <= 0xBF) || !is_cont(*slice_index_get(s, i + 2)) || !is_cont(
                *slice_index_get(s, i + 3),
            ) {
                return false;
            }
            4
        } else if 0xF1 <= b0 && b0 <= 0xF3 {
            if n - i < 4 || !is_cont(*slice_index_get(s, i + 1)) || !is_cont(
                *slice_index_get(s, i + 2),
            ) || !is_cont(*slice_index_get(s, i + 3)) {
                return false;
            }
            4
        } else if b0 == 0xF4 {
            if n - i < 4 {
                return false;
            }
            let b1 = *slice_index_get(s, i + 1);
            if !(0x80 <= b1 && b1 <= 0x8F) || !is_cont(*slice_index_get(s, i + 2)) || !is_cont(
                *slice_index_get(s, i + 3),
            ) {
                return false;
            }
            4
        } else {
            return false;
        };
        proof {
            assert(tail.skip(step as int) =~= s@.skip(i + step as int));
        }
        i += step;
    }
    proof {
        assert(s@.skip(i as int) =~= Seq::<u8>::empty());
    }
    true
}

/// Whether a byte is a UTF-8 continuation byte.
fn is_cont(b: u8) -> (r: bool)
    ensures
        r == is_continuation(b),
{
    0x80 <= b && b <= 0xBF
}

impl MessageType {
    /// The command that a leading word names: `PUB` or `SUB`, matched
    /// ASCII-case-insensitively; any other word is an unknown message type.
    pub fn new(typ: &[u8]) -> (r: Result<MessageType, InvalidMessage>)
        ensures
            match spec_message_type(typ@) {
                Some(t) => r == Ok::<MessageType, InvalidMessage>(t),
                None => r matches Err(e) && e.details@ == fault_details(
                    DecodeFault::UnknownType,
                ),
            },
    {
        let pub_word: [u8; 3] = [80, 85, 66];
        let sub_word: [u8; 3] = [83, 85, 66];
        if ascii_upper_eq(typ, pub_word.as_slice()) {
            Ok(MessageType::PUB)
        } else if ascii_upper_eq(typ, sub_word.as_slice()) {
            Ok(MessageType::SUB)
        } else {
            InvalidMessage::new_result(String::from_str("Unknown message type"))
        }
    }
}

impl Frame {
    /// The frame as wire bytes, exactly as [`spec_encode`] lays them out.
    pub fn encode(&self) -> (r: Vec<u8>)
        ensures
            r@ == spec_encode(self@),
    {
        let mut message: Vec<u8> = wire_name_bytes(self.0);
        match &self.2 {
            Some(content) => {
                message.push(32);
                push_all(&mut message, content.as_slice());
            },
            None => {},
        }
        if !self.1.is_empty() {
            message.push(32);
            push_all(&mut message, self.1.as_slice());
        }
        message.push(10);
        proof {
            assert(message@ =~= spec_encode(self@));
        }
        message
    }

    /// Decodes a raw line (with the terminator already stripped) into a
    /// frame from the given client, exactly as [`spec_decode`] reads it.
    /// Each failure is an [`InvalidMessage`] carrying that fault's details.
    pub fn decode(raw_msg: &[u8], sender: ClientId) -> (r: Result<Frame, InvalidMessage>)
        ensures
            match spec_decode(raw_msg@, sender) {
                Ok(fv) => r matches Ok(f) && f@ == fv,
                Err(fault) => r matches Err(e) && e.details@ == fault_details(fault),
            },
    {
        if !is_valid_utf8(raw_msg) {
            return InvalidMessage::new_result(String::from_str("invalid encoding"));
        }
        let quit_word: [u8; 4] = [81, 85, 73, 84];
        if ascii_upper_eq(raw_msg, quit_word.as_slice()) {
            return Ok(Frame(MessageType::QUIT, Vec::new(), None, sender));
        }
        match find_space(raw_msg) {
            None => InvalidMessage::new_result(
                String::from_str(
                    "invalid message format - needs to be in format `PUB $topic` or `SUB $topic $optional_parameters",
                ),
            ),
            Some(i) => {
                let n = raw_msg.len();
                let word = slice_subrange(raw_msg, 0, i);
                let rest = slice_subrange(raw_msg, i + 1, n);
                match MessageType::new(word) {
                    Err(e) => Err(e),
                    Ok(MessageType::PUB) => match find_space(rest) {
                        None => InvalidMessage::new_result(
                            String::from_str(
                                "invalid message format - needs to be in format `PUB $topic $message",
                            ),
                        ),
                        Some(j) => {
                            let m = rest.len();
                            let topic = slice_to_vec(slice_subrange(rest, 0, j));
                            let msg = slice_to_vec(slice_subrange(rest, j + 1, m));
                            Ok(Frame(MessageType::PUB, topic, Some(msg), sender))
                        },
                    },
                    Ok(MessageType::SUB) => {
                        let topic = match find_space(rest) {
                            None => slice_to_vec(rest),
                            Some(j) => slice_to_vec(slice_subrange(rest, 0, j)),
                        };
                        Ok(Frame(MessageType::SUB, topic, None, sender))
                    },
                    Ok(_) => vstd::pervasive::unreached(),
                }
            },
        }
    }
}

/// The wire name of a message type, as bytes.
fn wire_name_bytes(t: MessageType) -> (r: Vec<u8>)
    ensures
        r@ == wire_name(t),
{
    let mut v: Vec<u8> = Vec::new();
    match t {
        MessageType::PUB => {
            v.push(80);
            v.push(85);
            v.push(66);
            proof {
                assert(v@ =~= pub_name());
            }
        },
        MessageType::SUB => {
            v.push(83);
            v.push(85);
            v.push(66);
            proof {
                assert(v@ =~= sub_name());
            }
        },
        MessageType::UPDATE => {
            v.push(85);
            v.push(80);
            v.push(68);
            v.push(65);
            v.push(84);
            v.push(69);
            proof {
                assert(v@ =~= update_name());
            }
        },
        MessageType::OK => {
            v.push(79);
            v.push(75);
            proof {
                assert(v@ =~= ok_name());
            }
        },
        MessageType::QUIT => {
            v.push(81);
            v.push(85);
            v.push(73);
            v.push(84);
            proof {
                assert(v@ =~= quit_name());
            }
        },
    }
    v
}

/// The OK-reply content for a publish, `"Publish"`, as bytes.
pub fn publish_label_bytes() -> (r: Vec<u8>)
    ensures
        r@ == publish_label(),
{
    let mut v: Vec<u8> = Vec::new();
    v.push(80);
    v.push(117);
    v.push(98);
    v.push(108);
    v.push(105);
    v.push(115);
    v.push(104);
    proof {
        assert(v@ =~= publish_label());
    }
    v
}

/// The OK-reply content for a subscribe, `"Subscribe"`, as bytes.
pub fn subscribe_label_bytes() -> (r: Vec<u8>)
    ensures
        r@ == subscribe_label(),
{
    let mut v: Vec<u8> = Vec::new();
    v.push(83);
    v.push(117);
    v.push(98);
    v.push(115);
    v.push(99);
    v.push(114);
    v.push(105);
    v.push(98);
    v.push(101);
    proof {
        assert(v@ =~= subscribe_label());
    }
    v
}

/// Appends every byte of `src` to `out`, in order.
fn push_all(out: &mut Vec<u8>, src: &[u8])
    ensures
        final(out)@ == old(out)@ + src@,
{
    let mut i: usize = 0;
    while i < src.len()
        invariant
            i <= src@.len(),
            out@ == old(out)@ + src@.subrange(0, i as int),
        decreases src@.len() - i,
    {
        out.push(*slice_index_get(src, i));
        proof {
            assert(old(out)@ + src@.subrange(0, i as int) + seq![src@[i as int]] =~= old(out)@
                + src@.subrange(0, i + 1));
        }
        i += 1;
    }
    proof {
        assert(src@.subrange(0, src@.len() as int) =~= src@);
    }
}

} // verus!
