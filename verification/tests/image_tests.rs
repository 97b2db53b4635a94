use coderunner::image::{BuildMessages, Detail, Message};

fn pump(dec: &mut BuildMessages) -> Vec<Message> {
    let mut out = Vec::new();
    loop {
        match dec.next_message() {
            Ok(Some(m)) => out.push(m),
            Ok(None) => return out,
            Err(e) => panic!("decode error: {:?}", e),
        }
    }
}

fn stream_text(m: &Message) -> Vec<u8> {
    match m {
        Message::Stream { stream } => stream.clone(),
        Message::ErrorDetail { .. } => panic!("expected a step record"),
    }
}

#[test]
fn build_records_parse_one_per_object() {
    let input = b"{\"stream\":\"Step 1/1 : FROM x\"}\r\n{\"stream\":\"ok\"}\r\n";
    let mut dec = BuildMessages::new();
    dec.push_chunk(input);
    let msgs = pump(&mut dec);
    assert_eq!(msgs.len(), 2);
    assert_eq!(stream_text(&msgs[0]), b"Step 1/1 : FROM x".to_vec());
    assert_eq!(stream_text(&msgs[1]), b"ok".to_vec());
    assert!(dec.finish().is_ok());
}

#[test]
fn build_records_chunk_independent() {
    let input: &[u8] = b"{\"stream\":\"Step 1/2\"}\r\n{\"errorDetail\":{\"code\":1,\"message\":\"m\"},\"error\":\"e\"}\r\n";
    // one go
    let mut one = BuildMessages::new();
    one.push_chunk(input);
    let a = pump(&mut one);
    // byte by byte
    let mut two = BuildMessages::new();
    let mut b = Vec::new();
    for byte in input.iter() {
        two.push_chunk(&[*byte]);
        b.extend(pump(&mut two));
    }
    // a third cut, straddling the record boundary
    let mut three = BuildMessages::new();
    three.push_chunk(&input[..25]);
    let mut c = pump(&mut three);
    three.push_chunk(&input[25..]);
    c.extend(pump(&mut three));
    assert_eq!(a.len(), 2);
    assert_eq!(b.len(), 2);
    assert_eq!(c.len(), 2);
    for msgs in [&a, &b, &c] {
        assert_eq!(stream_text(&msgs[0]), b"Step 1/2".to_vec());
        match &msgs[1] {
            Message::ErrorDetail { error_detail: Detail { code, message }, error } => {
                assert_eq!(*code, 1);
                assert_eq!(message.clone(), b"m".to_vec());
                assert_eq!(error.clone(), b"e".to_vec());
            },
            _ => panic!("expected the error record"),
        }
    }
    assert!(one.finish().is_ok());
    assert!(two.finish().is_ok());
    assert!(three.finish().is_ok());
}

#[test]
fn build_record_escapes_decode() {
    let input = b"{\"stream\":\"a\\nb\\t\\\"q\\\" \\u0041 \\u00e9 \\ud83d\\ude00\"}";
    let mut dec = BuildMessages::new();
    dec.push_chunk(input);
    let msgs = pump(&mut dec);
    assert_eq!(msgs.len(), 1);
    let expected = "a\nb\t\"q\" A \u{e9} \u{1F600}".as_bytes().to_vec();
    assert_eq!(stream_text(&msgs[0]), expected);
}

#[test]
fn build_record_unknown_shape_is_an_error() {
    let mut dec = BuildMessages::new();
    dec.push_chunk(b"{\"status\":\"Pulling\"}");
    assert!(dec.next_message().is_err());
    assert!(dec.finish().is_err());
}

#[test]
fn build_record_tolerates_float_members() {
    let mut dec = BuildMessages::new();
    dec.push_chunk(b"{\"stream\":\"x\",\"aux\":1.5,\"more\":-2e10,\"f\":3.5E-2}");
    let msgs = pump(&mut dec);
    assert_eq!(stream_text(&msgs[0]), b"x".to_vec());
}

#[test]
fn build_record_tolerates_huge_integers() {
    let mut dec = BuildMessages::new();
    dec.push_chunk(b"{\"stream\":\"x\",\"big\":123456789012345678901234567890}");
    let msgs = pump(&mut dec);
    assert_eq!(stream_text(&msgs[0]), b"x".to_vec());
}

#[test]
fn error_detail_float_code_is_no_record() {
    let mut dec = BuildMessages::new();
    dec.push_chunk(b"{\"errorDetail\":{\"code\":1.5,\"message\":\"m\"},\"error\":\"e\"}");
    assert!(dec.next_message().is_err());
}

#[test]
fn build_record_passes_multibyte_text_through() {
    let mut dec = BuildMessages::new();
    let mut input = b"{\"stream\":\"".to_vec();
    input.extend("caf\u{e9} \u{1F600}".as_bytes());
    input.extend(b"\"}");
    dec.push_chunk(&input);
    let msgs = pump(&mut dec);
    assert_eq!(stream_text(&msgs[0]), "caf\u{e9} \u{1F600}".as_bytes().to_vec());
}

#[test]
fn build_record_refuses_ill_formed_utf8() {
    // a lone continuation byte inside string content
    let mut dec = BuildMessages::new();
    dec.push_chunk(b"{\"stream\":\"a\x80b\"}");
    assert!(dec.next_message().is_err());
    // an overlong two-byte form
    let mut two = BuildMessages::new();
    two.push_chunk(b"{\"stream\":\"\xC0\xAFx\"}");
    assert!(two.next_message().is_err());
    // a truncated sequence at end of input is only incomplete until more
    // bytes arrive
    let mut three = BuildMessages::new();
    three.push_chunk(b"{\"stream\":\"\xE2\x82");
    assert!(matches!(three.next_message(), Ok(None)));
    three.push_chunk(b"\xAC\"}");
    let msgs = pump(&mut three);
    assert_eq!(stream_text(&msgs[0]), "\u{20AC}".as_bytes().to_vec());
}

#[test]
fn build_record_tolerates_extra_members() {
    let mut dec = BuildMessages::new();
    dec.push_chunk(b"{\"aux\":{\"n\":null,\"b\":true,\"a\":[1,\"s\",false]},\"stream\":\"go\",\"n\":-12}");
    let msgs = pump(&mut dec);
    assert_eq!(msgs.len(), 1);
    assert_eq!(stream_text(&msgs[0]), b"go".to_vec());
}

#[test]
fn error_detail_code_may_be_negative() {
    let mut dec = BuildMessages::new();
    dec.push_chunk(b"{\"errorDetail\":{\"code\":-7,\"message\":\"m\"},\"error\":\"e\"}");
    let msgs = pump(&mut dec);
    match &msgs[0] {
        Message::ErrorDetail { error_detail, .. } => assert_eq!(error_detail.code, -7),
        other => panic!("expected the error record, got {:?}", other),
    }
}

#[test]
fn build_eof_with_garbage_is_an_error() {
    let mut dec = BuildMessages::new();
    dec.push_chunk(b"{\"stream\":\"ok\"}\r\n{\"str");
    let msgs = pump(&mut dec);
    assert_eq!(msgs.len(), 1);
    assert!(dec.finish().is_err());
}

#[test]
fn build_eof_with_terminator_whitespace_is_clean() {
    let mut dec = BuildMessages::new();
    dec.push_chunk(b"{\"stream\":\"ok\"}\r\n");
    let msgs = pump(&mut dec);
    assert_eq!(msgs.len(), 1);
    assert!(dec.finish().is_ok());
}
