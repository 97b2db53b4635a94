use coderunner::extract::{Transform, step_transform};
use coderunner::image::{Detail, Message};

fn stream(text: &str) -> Message {
    Message::Stream { stream: text.as_bytes().to_vec() }
}

fn detail() -> Message {
    Message::ErrorDetail {
        error_detail: Detail { code: 1, message: b"m".to_vec() },
        error: b"e".to_vec(),
    }
}

fn fold(msgs: &[Message]) -> Transform {
    let mut st = Transform::Empty;
    for m in msgs {
        st = step_transform(st, m);
    }
    st
}

fn as_id(st: &Transform) -> Vec<u8> {
    match st {
        Transform::Id(v) => v.clone(),
        _ => panic!("expected an id, got {:?}", st),
    }
}

fn as_error(st: &Transform) -> Vec<u8> {
    match st {
        Transform::Error(v) => v.clone(),
        _ => panic!("expected error text, got {:?}", st),
    }
}

#[test]
fn sha_line_pins_the_id() {
    let st = fold(&[stream("Step 1/1 : FROM x"), stream("sha256:abc123\n")]);
    assert_eq!(as_id(&st), b"abc123".to_vec());
}

#[test]
fn extractor_is_deterministic() {
    let msgs = [stream("Step 1/1"), stream("boom"), stream("worse"), detail()];
    let a = fold(&msgs);
    let b = fold(&msgs);
    assert_eq!(as_error(&a), as_error(&b));
}

#[test]
fn id_survives_later_records() {
    let st = fold(&[
        stream("sha256:abc123\n"),
        stream("Step 9/9 : RUN x"),
        stream("---> cached"),
        stream("noise"),
        detail(),
    ]);
    assert_eq!(as_id(&st), b"abc123".to_vec());
}

#[test]
fn compile_error_text_is_gathered_newest_first() {
    let st = fold(&[stream("Step 1/1"), stream("err1"), stream("err2"), detail()]);
    assert_eq!(as_error(&st), b"err2err1".to_vec());
}

#[test]
fn new_step_discards_gathered_error_text() {
    let st = fold(&[stream("old trouble"), stream("Step 2/2"), stream("fresh")]);
    assert_eq!(as_error(&st), b"fresh".to_vec());
}

#[test]
fn cache_hints_are_ignored() {
    let st = fold(&[stream("Step 1/1"), stream("---> cached"), stream("---> abc")]);
    match st {
        Transform::Empty => {},
        other => panic!("expected no conclusion, got {:?}", other),
    }
}
