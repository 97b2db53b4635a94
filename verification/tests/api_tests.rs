use coderunner::api::{
    is_execute_route, parse_submission, reply_for, APIService, ApiReply, Output,
};
use coderunner::executor::{ExecutionError, Executor, Language};

#[test]
fn submission_parses_code_and_lang() {
    let sub = parse_submission(&b"{\"code\":\"int main(){}\",\"lang\":\"c\"}".to_vec()).unwrap();
    assert_eq!(sub.code, "int main(){}");
    assert!(matches!(sub.lang, Language::C));
}

#[test]
fn unknown_lang_is_refused() {
    let r = parse_submission(&b"{\"code\":\"x\",\"lang\":\"rust\"}".to_vec());
    assert!(r.is_err());
    let reply = ApiReply::InvalidJson;
    assert_eq!(reply.status(), 400);
    assert_eq!(reply.body_text().unwrap(), "Invalid json");
}

#[test]
fn malformed_body_is_refused() {
    assert!(parse_submission(&b"not json".to_vec()).is_err());
    assert!(parse_submission(&b"{\"code\":\"x\"}".to_vec()).is_err());
    assert!(parse_submission(&b"{\"code\":1,\"lang\":\"c\"}".to_vec()).is_err());
    assert!(parse_submission(&b"{\"code\":\"x\",\"lang\":\"c\"} trailing".to_vec()).is_err());
}

#[test]
fn ill_formed_utf8_code_is_refused() {
    assert!(parse_submission(&b"{\"code\":\"a\xFFb\",\"lang\":\"c\"}".to_vec()).is_err());
    assert!(parse_submission(&b"{\"code\":\"a\xC3b\",\"lang\":\"c\"}".to_vec()).is_err());
}

#[test]
fn routing_accepts_only_post_execute() {
    assert!(is_execute_route(true, "/execute"));
    assert!(!is_execute_route(false, "/execute"));
    assert!(!is_execute_route(true, "/other"));
    let reply = ApiReply::InvalidUrl;
    assert_eq!(reply.status(), 404);
    assert_eq!(reply.body_text().unwrap(), "Invalid URL");
}

#[test]
fn replies_follow_the_outcome() {
    let ok = reply_for(Ok(Output::Output { stdout: "a".to_owned(), stderr: "".to_owned() }));
    match &ok {
        ApiReply::Success(Output::Output { stdout, stderr }) => {
            assert_eq!(stdout, "a");
            assert_eq!(stderr, "");
        },
        other => panic!("expected success, got {:?}", other),
    }
    assert_eq!(ok.status(), 200);
    assert!(ok.body_text().is_none());
    let err = reply_for(Err(ExecutionError::BadConfig));
    assert!(matches!(err, ApiReply::UnknownError));
    assert_eq!(err.status(), 200);
}

#[test]
fn service_holds_its_executor() {
    let service = APIService::new(Executor::new());
    let _ = &service.executor;
}
