use coderunner::api::{parse_submission, reply_for, ApiReply, Output};
use coderunner::error::DockerError;
use coderunner::executor::{create_body, build_tar, ExecutionError, Executor, Language};
use coderunner::extract::Transform;
use coderunner::image::BuildMessages;
use coderunner::log::{encode_frame_bytes, Logs};

/// Drives one submission through every stage, with the engine's answers
/// stubbed, and returns the settled result.
fn run_pipeline(
    body: &[u8],
    build_status: u16,
    build_stream: &[&[u8]],
    create_status: u16,
    create_body_bytes: &[u8],
    start_status: u16,
    logs_status: u16,
    log_stream: &[&[u8]],
) -> Result<Output, ExecutionError> {
    let sub = match parse_submission(&body.to_vec()) {
        Ok(sub) => sub,
        Err(()) => panic!("the submission should parse"),
    };
    let ex = Executor::new();
    let result = (|| {
        let tar = build_tar(&sub, &b"FROM scratch\n".to_vec())?;
        let _req = ex.build_image_request(tar);
        ex.on_build_status(build_status)?;
        let mut dec = BuildMessages::new();
        let mut st = Transform::Empty;
        for chunk in build_stream {
            st = ex.absorb_build_chunk(&mut dec, st, chunk)?;
        }
        let image_id = ex.finish_build(&dec, st)?;
        let _req = ex.create_container_request(&image_id);
        let container_id = ex.on_create_response(create_status, &create_body_bytes.to_vec())?;
        let _req = ex.docker.start_container(&container_id);
        ex.on_start_status(start_status)?;
        let _req = ex.docker.logs(&container_id);
        ex.on_logs_status(logs_status)?;
        let mut logs = Logs::new();
        let mut stdout = Vec::new();
        let mut stderr = Vec::new();
        for chunk in log_stream {
            ex.absorb_log_chunk(&mut logs, &mut stdout, &mut stderr, chunk)?;
        }
        ex.finish_logs(&logs, stdout, stderr)
    })();
    ex.settle(result)
}

#[test]
fn successful_run_returns_the_output() {
    let frame = encode_frame_bytes(1, &b"hello".to_vec());
    let result = run_pipeline(
        b"{\"code\":\"int main(){return 0;}\",\"lang\":\"c\"}",
        200,
        &[b"{\"stream\":\"Step 1/1 : FROM x\"}\r\n", b"{\"stream\":\"sha256:abc123\\n\"}\r\n"],
        201,
        b"{\"Id\":\"c1\",\"Warnings\":[]}",
        204,
        200,
        &[&frame],
    );
    match result {
        Ok(Output::Output { stdout, stderr }) => {
            assert_eq!(stdout, "hello");
            assert_eq!(stderr, "");
        },
        other => panic!("expected output, got {:?}", other),
    }
}

#[test]
fn compile_error_becomes_the_output() {
    let result = run_pipeline(
        b"{\"code\":\"garbage\",\"lang\":\"c\"}",
        200,
        &[
            b"{\"stream\":\"Step 1/1 : RUN cc\"}\r\n",
            b"{\"stream\":\"error: expected ';'\\n\"}\r\n",
            b"{\"errorDetail\":{\"code\":1,\"message\":\"x\"},\"error\":\"x\"}\r\n",
        ],
        201,
        b"{\"Id\":\"c1\"}",
        204,
        200,
        &[],
    );
    match result {
        Ok(Output::CompileError { error }) => {
            assert_eq!(error, "error: expected ';'\n");
        },
        other => panic!("expected a compile error, got {:?}", other),
    }
}

#[test]
fn stderr_and_stdout_are_kept_apart() {
    let mut frames = encode_frame_bytes(2, &b"err".to_vec());
    frames.extend(encode_frame_bytes(1, &b"ok".to_vec()));
    let result = run_pipeline(
        b"{\"code\":\"x\",\"lang\":\"c\"}",
        200,
        &[b"{\"stream\":\"sha256:i\\n\"}"],
        201,
        b"{\"Id\":\"c1\"}",
        204,
        200,
        &[&frames],
    );
    match result {
        Ok(Output::Output { stdout, stderr }) => {
            assert_eq!(stdout, "ok");
            assert_eq!(stderr, "err");
        },
        other => panic!("expected output, got {:?}", other),
    }
}

#[test]
fn cache_hints_alone_leave_the_run_unexplained() {
    let result = run_pipeline(
        b"{\"code\":\"x\",\"lang\":\"c\"}",
        200,
        &[b"{\"stream\":\"---> cached\"}\r\n{\"stream\":\"---> abc\"}\r\n"],
        201,
        b"{\"Id\":\"c1\"}",
        204,
        200,
        &[],
    );
    match result {
        Err(ExecutionError::UnknownError) => {},
        other => panic!("expected the unknown error, got {:?}", other),
    }
}

#[test]
fn build_refusal_answers_unknown_error() {
    let result = run_pipeline(
        b"{\"code\":\"x\",\"lang\":\"c\"}",
        400,
        &[],
        201,
        b"{\"Id\":\"c1\"}",
        204,
        200,
        &[],
    );
    match &result {
        Err(ExecutionError::DockerError(DockerError::BadRequest)) => {},
        other => panic!("expected the engine refusal, got {:?}", other),
    }
    let reply = reply_for(result);
    assert!(matches!(reply, ApiReply::UnknownError));
    assert_eq!(reply.status(), 200);
    assert_eq!(reply.body_text().unwrap(), "Unknown error");
}

#[test]
fn python_submission_packs_its_own_file_name() {
    let sub = parse_submission(&b"{\"code\":\"print 1\",\"lang\":\"python2.7\"}".to_vec()).unwrap();
    assert!(matches!(sub.lang, Language::Python27));
    assert_eq!(sub.lang.get_file_name(), "code.py");
    assert_eq!(sub.lang.get_docker_file(), "resources/python2/Dockerfile");
}

#[test]
fn tar_holds_recipe_and_code() {
    let sub = parse_submission(&b"{\"code\":\"int main;\",\"lang\":\"c\"}".to_vec()).unwrap();
    let recipe = b"FROM gcc:latest\n".to_vec();
    let tar = build_tar(&sub, &recipe).unwrap();
    assert!(tar.len() % 512 == 0);
    assert!(tar.len() >= 512 * 4);
    assert_eq!(&tar[..10], b"Dockerfile");
    assert_eq!(&tar[512..512 + recipe.len()], &recipe[..]);
    assert_eq!(&tar[1024..1024 + 6], b"code.c");
    assert_eq!(&tar[1536..1536 + 9], b"int main;");
}

#[test]
fn create_body_is_the_fixed_configuration() {
    let body = create_body(&b"abc123".to_vec());
    let expected = "{\"NetworkDisabled\":true,\"Image\":\"abc123\",\"HostConfig\":{\"CpusetCpus\":\"2-3\",\"PidsLimit\":1024,\"Ulimits\":[{\"Name\":\"cpu\",\"Hard\":1,\"Soft\":1}],\"AutoRemove\":true,\"Memory\":1073741824,\"MemorySwap\":1073741824,\"DiskQuota\":10737418240}}";
    assert_eq!(body, expected.as_bytes().to_vec());
}

#[test]
fn create_body_escapes_the_id() {
    let body = create_body(&b"a\"b\\c\x01".to_vec());
    let text = String::from_utf8(body).unwrap();
    assert!(text.contains("\"Image\":\"a\\\"b\\\\c\\u0001\","));
}
