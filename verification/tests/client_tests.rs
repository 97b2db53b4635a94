use coderunner::client::{
    Docker, Method, build_query, build_response_status, logs_response_status,
    start_response_status,
};
use coderunner::container::{ContainerBuilder, create_response};
use coderunner::error::DockerError;
use coderunner::image::ImageBuilder;

#[test]
fn query_escapes_what_needs_escaping() {
    let ps = vec![(b"a b".to_vec(), b"c&d".to_vec()), (b"q".to_vec(), b"true".to_vec())];
    let q = build_query(&ps);
    assert_eq!(q, b"a+b=c%26d&q=true".to_vec());
}

#[test]
fn build_request_has_path_and_body() {
    let b = ImageBuilder::new().with_param("q", "true").with_body(b"TARBYTES".to_vec());
    let req = b.build().unwrap();
    assert!(matches!(req.method, Method::Post));
    assert_eq!(req.path, b"/v1.30/build?q=true".to_vec());
    assert_eq!(req.body, b"TARBYTES".to_vec());
    assert!(req.headers.is_empty());
}

#[test]
fn create_request_has_path_headers_and_body() {
    let b = ContainerBuilder::new()
        .with_body(b"{}".to_vec())
        .with_header("Content-Type", "application/json");
    let req = b.build().unwrap();
    assert!(matches!(req.method, Method::Post));
    assert_eq!(req.path, b"/v1.30/containers/create".to_vec());
    assert_eq!(req.headers.len(), 1);
    assert_eq!(req.headers[0].0, b"Content-Type".to_vec());
    assert_eq!(req.headers[0].1, b"application/json".to_vec());
    assert_eq!(req.body, b"{}".to_vec());
}

#[test]
fn start_request_names_the_container() {
    let d = Docker::new();
    let req = d.start_container(&b"abc42".to_vec());
    assert!(matches!(req.method, Method::Post));
    assert_eq!(req.path, b"/v1.30/containers/abc42/start".to_vec());
    assert!(req.body.is_empty());
}

#[test]
fn logs_request_follows_both_streams() {
    let d = Docker::new();
    let req = d.logs(&b"abc42".to_vec());
    assert!(matches!(req.method, Method::Get));
    assert_eq!(
        req.path,
        b"/v1.30/containers/abc42/logs?follow=true&stdout=true&stderr=true".to_vec()
    );
    assert_eq!(req.headers.len(), 1);
    assert_eq!(req.headers[0].0, b"Connection".to_vec());
    assert_eq!(req.headers[0].1, b"upgrade".to_vec());
}

#[test]
fn build_status_mapping() {
    assert!(build_response_status(200).is_ok());
    assert_eq!(build_response_status(400).unwrap_err(), DockerError::BadRequest);
    assert_eq!(build_response_status(500).unwrap_err(), DockerError::InternalServerError);
}

#[test]
fn start_status_mapping() {
    assert!(start_response_status(204).is_ok());
    assert!(start_response_status(304).is_ok());
    assert_eq!(start_response_status(404).unwrap_err(), DockerError::NotFound);
    assert_eq!(start_response_status(500).unwrap_err(), DockerError::InternalServerError);
}

#[test]
fn logs_status_mapping() {
    assert!(logs_response_status(200).is_ok());
    assert!(logs_response_status(101).is_ok());
    assert_eq!(logs_response_status(404).unwrap_err(), DockerError::NotFound);
    assert_eq!(logs_response_status(500).unwrap_err(), DockerError::InternalServerError);
}

#[test]
fn create_returns_the_id_on_201() {
    let body = b"{\"Id\":\"deadbeef\",\"Warnings\":[]}".to_vec();
    assert_eq!(create_response(201, &body).unwrap(), b"deadbeef".to_vec());
}

#[test]
fn create_406_cant_attach_404_bad_request() {
    let body = b"{\"message\":\"no\"}".to_vec();
    assert_eq!(create_response(406, &body).unwrap_err(), DockerError::CantAttach);
    assert_eq!(create_response(404, &body).unwrap_err(), DockerError::BadRequest);
    assert_eq!(create_response(400, &body).unwrap_err(), DockerError::BadRequest);
    assert_eq!(create_response(500, &body).unwrap_err(), DockerError::InternalServerError);
}

#[test]
fn create_tolerates_surrounding_whitespace() {
    let body = b" \r\n {\"Id\" : \"x1\"} \n".to_vec();
    assert_eq!(create_response(201, &body).unwrap(), b"x1".to_vec());
}

#[test]
fn create_with_unreadable_body_is_unknown() {
    assert_eq!(
        create_response(201, &b"not json".to_vec()).unwrap_err(),
        DockerError::UnknownError
    );
    assert_eq!(
        create_response(201, &b"{\"No\":\"id\"}".to_vec()).unwrap_err(),
        DockerError::UnknownError
    );
}
