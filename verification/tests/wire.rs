use rosrust::tcpros::descriptor::MessageType;
use rosrust::tcpros::error::WireError;
use rosrust::tcpros::frame::{decode_frame, decode_frames, encode_frame, get_u32, put_u32};
use rosrust::tcpros::handshake::{
    check_answer, check_request, client_request, publisher_answer, reason_text, refusal,
    server_answer, subscriber_request, wants_persistence, Fault,
};
use rosrust::tcpros::header::{decode, decode_field, encode, get};
use rosrust::tcpros::message;
use rosrust::tcpros::message::{Atom, AtomKind};
use rosrust::tcpros::service::{decode_response, encode_failure, encode_result};

fn fields(list: &[(&str, &str)]) -> Vec<(String, String)> {
    list.iter().map(|(k, v)| (k.to_string(), v.to_string())).collect()
}

fn foo() -> MessageType {
    MessageType::new("pkg/Foo", "aaa", "string data\n")
}

#[test]
fn lengths_are_written_least_significant_byte_first() {
    let mut out = vec![9u8];
    put_u32(&mut out, 0x0403_0201);
    assert_eq!(out, vec![9, 1, 2, 3, 4]);
    assert_eq!(get_u32(&out, 1), 0x0403_0201);
    let mut big = Vec::new();
    put_u32(&mut big, u32::MAX);
    put_u32(&mut big, 0);
    put_u32(&mut big, 256);
    assert_eq!(big, vec![255, 255, 255, 255, 0, 0, 0, 0, 0, 1, 0, 0]);
    assert_eq!(get_u32(&big, 0), u32::MAX);
    assert_eq!(get_u32(&big, 4), 0);
    assert_eq!(get_u32(&big, 8), 256);
}

#[test]
fn a_frame_is_its_length_then_its_body() {
    assert_eq!(encode_frame(b"hello").unwrap(), vec![5, 0, 0, 0, b'h', b'e', b'l', b'l', b'o']);
    assert_eq!(encode_frame(b"").unwrap(), vec![0, 0, 0, 0]);
    let long = vec![7u8; 300];
    let framed = encode_frame(&long).unwrap();
    assert_eq!(&framed[..4], &[44, 1, 0, 0]);
    assert_eq!(&framed[4..], &long[..]);
}

#[test]
fn a_frame_is_read_only_when_it_is_whole() {
    let bytes = [3, 0, 0, 0, 1, 2, 3, 9, 9];
    assert_eq!(decode_frame(&bytes), Some((vec![1, 2, 3], 7)));
    assert_eq!(decode_frame(&bytes[..7]), Some((vec![1, 2, 3], 7)));
    assert_eq!(decode_frame(&bytes[..6]), None);
    assert_eq!(decode_frame(&bytes[..3]), None);
    assert_eq!(decode_frame(&[]), None);
    assert_eq!(decode_frame(&[0, 0, 0, 0]), Some((vec![], 4)));
}

#[test]
fn every_beginning_of_a_stream_gives_a_beginning_of_what_was_sent() {
    let sent: Vec<Vec<u8>> = vec![b"one".to_vec(), vec![], b"three".to_vec(), vec![0; 17]];
    let mut stream = Vec::new();
    for body in &sent {
        stream.extend(encode_frame(body).unwrap());
    }
    let mut seen = 0;
    for n in 0..=stream.len() {
        let (got, used) = decode_frames(&stream[..n]);
        assert!(got.len() <= sent.len());
        assert_eq!(&got[..], &sent[..got.len()]);
        assert!(used <= n);
        assert!(got.len() >= seen);
        seen = got.len();
    }
    let (all, used) = decode_frames(&stream);
    assert_eq!(all, sent);
    assert_eq!(used, stream.len());
}

#[test]
fn a_header_is_a_row_of_fields_behind_their_lengths() {
    let bytes = encode(&fields(&[("a", "b"), ("key", "value")])).unwrap();
    let mut expected = vec![20u8, 0, 0, 0];
    expected.extend([3, 0, 0, 0]);
    expected.extend(b"a=b");
    expected.extend([9, 0, 0, 0]);
    expected.extend(b"key=value");
    assert_eq!(bytes, expected);
    assert_eq!(encode(&Vec::new()).unwrap(), vec![0, 0, 0, 0]);
}

#[test]
fn a_header_is_read_back_as_it_was_written() {
    let list = fields(&[
        ("callerid", "/talker"),
        ("topic", "/chatter"),
        ("type", "std_msgs/String"),
        ("md5sum", "992ce8a1687cec8c8bd883ec73ca41d1"),
        ("message_definition", "string data\n"),
        ("empty", ""),
        ("equation", "a=b=c"),
        ("text", "na\u{ef}ve \u{1F600}"),
    ]);
    let bytes = encode(&list).unwrap();
    let (back, used) = decode(&bytes).unwrap();
    assert_eq!(back, list);
    assert_eq!(used, bytes.len());
    let mut more = bytes.clone();
    more.extend([1, 2, 3]);
    let (again, used) = decode(&more).unwrap();
    assert_eq!(again, list);
    assert_eq!(used, bytes.len());
}

#[test]
fn a_header_that_is_cut_short_is_refused() {
    let bytes = encode(&fields(&[("a", "b"), ("c", "d")])).unwrap();
    for n in 0..bytes.len() {
        assert_eq!(decode(&bytes[..n]), Err(WireError::Truncated));
    }
    assert_eq!(decode(&[6, 0, 0, 0, 9, 0, 0, 0, b'a', b'=']), Err(WireError::Truncated));
    assert_eq!(decode(&[2, 0, 0, 0, 1, 0]), Err(WireError::Truncated));
}

#[test]
fn a_field_needs_an_equals_sign_and_utf8() {
    assert_eq!(decode(&[7, 0, 0, 0, 3, 0, 0, 0, b'a', b'b', b'c']), Err(WireError::MissingEquals));
    assert_eq!(decode(&[4, 0, 0, 0, 0, 0, 0, 0]), Err(WireError::MissingEquals));
    assert_eq!(decode(&[7, 0, 0, 0, 3, 0, 0, 0, b'a', b'=', 0xff]), Err(WireError::InvalidText));
    assert_eq!(decode(&[7, 0, 0, 0, 3, 0, 0, 0, 0xc3, b'=', b'x']), Err(WireError::InvalidText));
    assert_eq!(decode_field(b"k=v").unwrap(), ("k".to_string(), "v".to_string()));
    assert_eq!(decode_field(b"=").unwrap(), (String::new(), String::new()));
    assert_eq!(decode_field(b"k=v=w").unwrap(), ("k".to_string(), "v=w".to_string()));
    assert_eq!(decode_field(b""), Err(WireError::MissingEquals));
    assert_eq!(
        decode(&[12, 0, 0, 0, 1, 0, 0, 0, b'x', 3, 0, 0, 0, b'a', b'=', 0xff]),
        Err(WireError::MissingEquals)
    );
}

#[test]
fn the_last_field_of_a_key_counts() {
    let list = fields(&[("a", "1"), ("b", "2"), ("a", "3")]);
    assert_eq!(get(&list, "a"), Some(&"3".to_string()));
    assert_eq!(get(&list, "b"), Some(&"2".to_string()));
    assert_eq!(get(&list, "c"), None);
    assert_eq!(get(&Vec::new(), "a"), None);
}

#[test]
fn requests_carry_the_fields_of_the_protocol() {
    assert_eq!(
        subscriber_request("/listener", "/chatter", &foo(), false),
        fields(&[
            ("callerid", "/listener"),
            ("topic", "/chatter"),
            ("type", "pkg/Foo"),
            ("md5sum", "aaa"),
        ])
    );
    assert_eq!(
        subscriber_request("/listener", "/chatter", &foo(), true).last(),
        Some(&("tcp_nodelay".to_string(), "1".to_string()))
    );
    assert_eq!(
        client_request("/caller", "/add", &foo(), true),
        fields(&[
            ("callerid", "/caller"),
            ("service", "/add"),
            ("type", "pkg/Foo"),
            ("md5sum", "aaa"),
            ("persistent", "1"),
        ])
    );
    assert!(wants_persistence(&client_request("/caller", "/add", &foo(), true)));
    assert!(!wants_persistence(&client_request("/caller", "/add", &foo(), false)));
    assert!(!wants_persistence(&fields(&[("persistent", "0")])));
}

#[test]
fn a_matching_request_is_accepted_with_the_publishers_header() {
    let request = subscriber_request("/listener", "/chatter", &foo(), false);
    assert_eq!(
        publisher_answer("/talker", "/chatter", &foo(), false, &request),
        Ok(fields(&[
            ("callerid", "/talker"),
            ("type", "pkg/Foo"),
            ("md5sum", "aaa"),
            ("message_definition", "string data\n"),
            ("latching", "0"),
        ]))
    );
    let answer = publisher_answer("/talker", "/chatter", &foo(), true, &request).unwrap();
    assert_eq!(get(&answer, "latching"), Some(&"1".to_string()));
    assert_eq!(check_answer(&answer, &foo()), Ok(()));
    assert_eq!(check_request(&request, "topic", "/chatter", &foo()), Ok("/listener".to_string()));
}

#[test]
fn a_star_accepts_any_fingerprint_and_type() {
    let any = MessageType::new("*", "*", "");
    let request = subscriber_request("/listener", "/chatter", &any, false);
    assert!(publisher_answer("/talker", "/chatter", &foo(), false, &request).is_ok());
    let request = subscriber_request("/listener", "/chatter", &foo(), false);
    assert!(publisher_answer("/talker", "/chatter", &any, false, &request).is_ok());
    let answer = fields(&[("md5sum", "*"), ("type", "other/Type")]);
    assert_eq!(
        check_answer(&answer, &foo()),
        Err(Fault::Mismatch("type".into(), "pkg/Foo".into(), "other/Type".into()))
    );
    assert_eq!(check_answer(&fields(&[("md5sum", "*"), ("type", "*")]), &foo()), Ok(()));
}

#[test]
fn a_request_is_checked_field_by_field() {
    let good = fields(&[
        ("callerid", "/c"),
        ("topic", "/t"),
        ("type", "pkg/Foo"),
        ("md5sum", "aaa"),
    ]);
    let without = |key: &str| -> Vec<(String, String)> {
        good.iter().filter(|f| f.0 != key).cloned().collect()
    };
    assert_eq!(check_request(&good, "topic", "/t", &foo()), Ok("/c".to_string()));
    assert_eq!(
        check_request(&without("md5sum"), "topic", "/t", &foo()),
        Err(Fault::MissingField("md5sum".into()))
    );
    assert_eq!(
        check_request(&without("type"), "topic", "/t", &foo()),
        Err(Fault::MissingField("type".into()))
    );
    assert_eq!(
        check_request(&without("topic"), "topic", "/t", &foo()),
        Err(Fault::MissingField("topic".into()))
    );
    assert_eq!(
        check_request(&without("callerid"), "topic", "/t", &foo()),
        Err(Fault::MissingField("callerid".into()))
    );
    assert_eq!(
        check_request(&good, "topic", "/other", &foo()),
        Err(Fault::Mismatch("topic".into(), "/other".into(), "/t".into()))
    );
    assert_eq!(
        check_request(&good, "service", "/t", &foo()),
        Err(Fault::MissingField("service".into()))
    );
    assert_eq!(
        check_request(&Vec::new(), "topic", "/t", &foo()),
        Err(Fault::MissingField("md5sum".into()))
    );
}

#[test]
fn a_refusal_is_one_error_field() {
    let f = Fault::Mismatch("md5sum".into(), "aaa".into(), "bbb".into());
    assert_eq!(reason_text(&f), "field 'md5sum' expected 'aaa', received 'bbb'");
    assert_eq!(refusal(&f), fields(&[("error", "field 'md5sum' expected 'aaa', received 'bbb'")]));
    assert_eq!(reason_text(&Fault::MissingField("type".into())), "missing field 'type'");
    assert_eq!(reason_text(&Fault::Rejected("no".into())), "no");
    let heard = check_answer(&refusal(&f), &foo());
    assert_eq!(
        heard,
        Err(Fault::Rejected("field 'md5sum' expected 'aaa', received 'bbb'".into()))
    );
}

#[test]
fn a_server_answers_with_its_own_header() {
    let request = client_request("/caller", "/add", &foo(), false);
    assert_eq!(
        server_answer("/server", "/add", &foo(), &request),
        Ok(fields(&[("callerid", "/server"), ("type", "pkg/Foo"), ("md5sum", "aaa")]))
    );
    let other = MessageType::new("pkg/Foo", "bbb", "");
    assert_eq!(
        server_answer("/server", "/add", &other, &request),
        Err(fields(&[("error", "field 'md5sum' expected 'bbb', received 'aaa'")]))
    );
}

#[test]
fn a_service_response_is_a_status_then_a_frame() {
    assert_eq!(encode_result(&[7, 8]).unwrap(), vec![1, 2, 0, 0, 0, 7, 8]);
    assert_eq!(encode_failure("no").unwrap(), vec![0, 2, 0, 0, 0, b'n', b'o']);
    assert_eq!(decode_response(&[1, 2, 0, 0, 0, 7, 8, 5]), Ok(Some((Ok(vec![7, 8]), 7))));
    assert_eq!(
        decode_response(&[0, 2, 0, 0, 0, b'n', b'o']),
        Ok(Some((Err("no".to_string()), 7)))
    );
    assert_eq!(decode_response(&[]), Ok(None));
    assert_eq!(decode_response(&[1]), Ok(None));
    assert_eq!(decode_response(&[1, 2, 0, 0, 0, 7]), Ok(None));
    assert_eq!(decode_response(&[2, 0, 0, 0, 0]), Err(WireError::BadStatus));
    assert_eq!(decode_response(&[0, 1, 0, 0, 0, 0xff]), Err(WireError::InvalidText));
}

#[test]
fn words_are_written_least_significant_byte_first() {
    let atoms = vec![
        Atom::U8(0xab),
        Atom::U16(0x0102),
        Atom::U32(0x0304_0506),
        Atom::U64(0x0708_090a_0b0c_0d0e),
        Atom::Text("hi".to_string()),
    ];
    let bytes = message::encode(&atoms).unwrap();
    assert_eq!(
        bytes,
        vec![
            0xab, 0x02, 0x01, 0x06, 0x05, 0x04, 0x03, 0x0e, 0x0d, 0x0c, 0x0b, 0x0a, 0x09, 0x08,
            0x07, 2, 0, 0, 0, b'h', b'i',
        ]
    );
    let kinds = vec![AtomKind::U8, AtomKind::U16, AtomKind::U32, AtomKind::U64, AtomKind::Text];
    assert_eq!(message::decode(&kinds, &bytes), Ok(Some((atoms, bytes.len()))));
}

#[test]
fn a_message_is_read_back_as_it_was_written() {
    let atoms = vec![
        Atom::U32(3),
        Atom::U64((-5i64) as u64),
        Atom::U64(1.5f64.to_bits()),
        Atom::U32(2.25f32.to_bits()),
        Atom::U8(1),
        Atom::Text(String::new()),
        Atom::Text("gr\u{fc}\u{df}e".to_string()),
        Atom::U16(u16::MAX),
        Atom::U64(u64::MAX),
        Atom::U32(2),
        Atom::U8(10),
        Atom::U8(20),
    ];
    let kinds = vec![
        AtomKind::U32,
        AtomKind::U64,
        AtomKind::U64,
        AtomKind::U32,
        AtomKind::U8,
        AtomKind::Text,
        AtomKind::Text,
        AtomKind::U16,
        AtomKind::U64,
        AtomKind::U32,
        AtomKind::U8,
        AtomKind::U8,
    ];
    let mut bytes = message::encode(&atoms).unwrap();
    let length = bytes.len();
    assert_eq!(message::decode(&kinds, &bytes), Ok(Some((atoms.clone(), length))));
    bytes.extend([1, 2, 3]);
    assert_eq!(message::decode(&kinds, &bytes), Ok(Some((atoms.clone(), length))));
    match &atoms[1] {
        Atom::U64(bits) => assert_eq!(*bits as i64, -5),
        _ => unreachable!(),
    }
    match &atoms[2] {
        Atom::U64(bits) => assert_eq!(f64::from_bits(*bits), 1.5),
        _ => unreachable!(),
    }
    for n in 0..length {
        assert_eq!(message::decode(&kinds, &bytes[..n]), Ok(None));
    }
}

#[test]
fn a_text_that_is_not_utf8_is_refused() {
    assert_eq!(
        message::decode(&vec![AtomKind::Text], &[1, 0, 0, 0, 0xff]),
        Err(WireError::InvalidText)
    );
    assert_eq!(message::decode_atom(AtomKind::U16, &[1]), Ok(None));
    assert_eq!(message::decode_atom(AtomKind::U16, &[1, 2, 3]), Ok(Some((Atom::U16(513), 2))));
    assert_eq!(message::decode(&Vec::new(), &[1, 2]), Ok(Some((Vec::new(), 0))));
}
