use pubsub_broker::protocol::{is_valid_utf8, Frame, MessageType};
use pubsub_broker::result::InvalidMessage;

#[test]
fn frame_should_decode_pub() {
    let topic_sender: u128 = 1;

    let Frame(message_type, topic, content, _sender) =
        Frame::decode("PUB topic message".as_ref(), topic_sender).unwrap();
    assert_eq!(message_type, MessageType::PUB);
    assert_eq!(topic, b"topic".to_vec());
    assert_eq!(content, Some(b"message".to_vec()));
}

#[test]
fn frame_should_decode_sub() {
    let topic_sender: u128 = 1;

    let Frame(message_type, topic, content, _sender) =
        Frame::decode("SUB topic".as_ref(), topic_sender).unwrap();
    assert_eq!(message_type, MessageType::SUB);
    assert_eq!(topic, b"topic".to_vec());
    assert_eq!(content, None);
}

#[test]
fn frame_should_decode_quit() {
    let topic_sender: u128 = 1;

    let Frame(message_type, topic, content, _sender) =
        Frame::decode("QUIT".as_ref(), topic_sender).unwrap();
    assert_eq!(message_type, MessageType::QUIT);
    assert_eq!(topic, b"".to_vec());
    assert_eq!(content, None);
}

#[test]
fn frame_should_encode_quit() {
    let topic_sender: u128 = 1;

    let frame = Frame(MessageType::QUIT, "".into(), None, topic_sender);

    assert_eq!(frame.encode(), "QUIT\n".as_bytes().to_owned())
}

#[test]
fn frame_should_encode_update() {
    let topic_sender: u128 = 1;

    let frame = Frame(MessageType::QUIT, "".into(), None, topic_sender);

    assert_eq!(frame.encode(), "QUIT\n".as_bytes().to_owned())
}

#[test]
fn invalid_message_should_print_debug_msg() {
    let msg: Result<String, InvalidMessage> =
        InvalidMessage::new_result::<String>("these are the details".into());
    assert_eq!(
        format!("{:?}", msg),
        "Err(InvalidMessage { details: \"these are the details\" })"
    );
}

#[test]
fn decode_is_case_insensitive() {
    let Frame(t, topic, content, _) = Frame::decode(b"quit", 9).unwrap();
    assert_eq!(t, MessageType::QUIT);
    assert_eq!(topic, b"".to_vec());
    assert_eq!(content, None);

    let Frame(t, topic, content, _) = Frame::decode(b"pub weather rain", 9).unwrap();
    assert_eq!(t, MessageType::PUB);
    assert_eq!(topic, b"weather".to_vec());
    assert_eq!(content, Some(b"rain".to_vec()));

    let Frame(t, topic, content, _) = Frame::decode(b"Sub weather", 9).unwrap();
    assert_eq!(t, MessageType::SUB);
    assert_eq!(topic, b"weather".to_vec());
    assert_eq!(content, None);
}

#[test]
fn decode_pub_message_may_hold_spaces() {
    let Frame(t, topic, content, _) = Frame::decode(b"PUB weather heavy rain ahead", 3).unwrap();
    assert_eq!(t, MessageType::PUB);
    assert_eq!(topic, b"weather".to_vec());
    assert_eq!(content, Some(b"heavy rain ahead".to_vec()));
}

#[test]
fn decode_sub_takes_first_token_as_topic() {
    let Frame(t, topic, content, _) = Frame::decode(b"SUB weather extra tokens", 3).unwrap();
    assert_eq!(t, MessageType::SUB);
    assert_eq!(topic, b"weather".to_vec());
    assert_eq!(content, None);
}

#[test]
fn decode_keeps_the_sender() {
    let Frame(_, _, _, sender) = Frame::decode(b"SUB weather", 42).unwrap();
    assert_eq!(sender, 42);
}

#[test]
fn decode_pub_without_message_is_an_error() {
    let err = Frame::decode(b"PUB weather", 1).unwrap_err();
    assert_eq!(
        err.details(),
        "invalid message format - needs to be in format `PUB $topic $message"
    );
}

#[test]
fn decode_unknown_word_is_an_error() {
    let err = Frame::decode(b"FOO bar", 1).unwrap_err();
    assert_eq!(err.details(), "Unknown message type");
}

#[test]
fn decode_line_without_space_is_an_error() {
    let err = Frame::decode(b"NOSPACE", 1).unwrap_err();
    assert_eq!(
        err.details(),
        "invalid message format - needs to be in format `PUB $topic` or `SUB $topic $optional_parameters"
    );
}

#[test]
fn decode_invalid_encoding_is_an_error() {
    let err = Frame::decode(&[0xFF, 0x41, 0x42], 1).unwrap_err();
    assert_eq!(err.details(), "invalid encoding");
}

#[test]
fn decode_accepts_multibyte_text() {
    // "PUB caf\u{e9} hot" with the topic in UTF-8.
    let line = b"PUB caf\xC3\xA9 hot";
    let Frame(t, topic, content, _) = Frame::decode(line, 1).unwrap();
    assert_eq!(t, MessageType::PUB);
    assert_eq!(topic, b"caf\xC3\xA9".to_vec());
    assert_eq!(content, Some(b"hot".to_vec()));
}

#[test]
fn utf8_validation_matches_the_standard_forms() {
    assert!(is_valid_utf8(b""));
    assert!(is_valid_utf8(b"plain ascii"));
    assert!(is_valid_utf8(&[0xC3, 0xA9])); // two-byte form
    assert!(is_valid_utf8(&[0xE2, 0x82, 0xAC])); // three-byte form
    assert!(is_valid_utf8(&[0xF0, 0x9F, 0x98, 0x80])); // four-byte form
    assert!(!is_valid_utf8(&[0x80])); // lone continuation byte
    assert!(!is_valid_utf8(&[0xC3])); // truncated two-byte form
    assert!(!is_valid_utf8(&[0xC0, 0xAF])); // overlong form
    assert!(!is_valid_utf8(&[0xED, 0xA0, 0x80])); // surrogate
    assert!(!is_valid_utf8(&[0xF5, 0x80, 0x80, 0x80])); // beyond U+10FFFF
}

#[test]
fn message_type_new_matches_command_words() {
    assert_eq!(MessageType::new(b"PUB").unwrap(), MessageType::PUB);
    assert_eq!(MessageType::new(b"pub").unwrap(), MessageType::PUB);
    assert_eq!(MessageType::new(b"SUB").unwrap(), MessageType::SUB);
    assert_eq!(MessageType::new(b"sUb").unwrap(), MessageType::SUB);
    assert_eq!(
        MessageType::new(b"QUIT").unwrap_err().details(),
        "Unknown message type"
    );
    assert_eq!(
        MessageType::new(b"UPDATE").unwrap_err().details(),
        "Unknown message type"
    );
}

#[test]
fn encode_puts_content_before_topic() {
    let frame = Frame(
        MessageType::UPDATE,
        b"weather".to_vec(),
        Some(b"rain".to_vec()),
        1,
    );
    assert_eq!(frame.encode(), b"UPDATE rain weather\n".to_vec());
}

#[test]
fn encode_skips_absent_content_and_empty_topic() {
    let only_topic = Frame(MessageType::OK, b"weather".to_vec(), None, 1);
    assert_eq!(only_topic.encode(), b"OK weather\n".to_vec());

    let only_content = Frame(MessageType::UPDATE, b"".to_vec(), Some(b"rain".to_vec()), 1);
    assert_eq!(only_content.encode(), b"UPDATE rain\n".to_vec());

    let bare = Frame(MessageType::PUB, b"".to_vec(), None, 1);
    assert_eq!(bare.encode(), b"PUB\n".to_vec());
}

#[test]
fn encode_of_decoded_commands_round_trips_the_line() {
    let Frame(t, topic, content, sender) = Frame::decode(b"PUB weather rain", 5).unwrap();
    let encoded = Frame(t, topic, content, sender).encode();
    // A PUB frame re-encodes with the content before the topic and a newline.
    assert_eq!(encoded, b"PUB rain weather\n".to_vec());

    let quit = Frame::decode(b"QUIT", 5).unwrap();
    assert_eq!(quit.encode(), b"QUIT\n".to_vec());
}

#[test]
fn decode_quit_with_trailing_tokens_is_unknown() {
    // Only the exact (case-insensitive) line `QUIT` is the quit command.
    let err = Frame::decode(b"QUIT now", 1).unwrap_err();
    assert_eq!(err.details(), "Unknown message type");
}

#[test]
fn decode_empty_line_is_an_error() {
    let err = Frame::decode(b"", 1).unwrap_err();
    assert_eq!(
        err.details(),
        "invalid message format - needs to be in format `PUB $topic` or `SUB $topic $optional_parameters"
    );
}
