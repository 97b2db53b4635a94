//! The shape of requests to the container engine, and the mapping of its
//! answers.
//!
//! The engine listens on a local socket and speaks plain HTTP. This module
//! states, for each operation the pipeline uses, exactly which request is
//! sent — method, path, query, headers, body — and what each response
//! status means. Sending the bytes is the transport's business, outside
//! this crate.

use vstd::prelude::*;
use vstd::string::StringSliceAdditionalSpecFns;
use crate::bytesutil::append_bytes;
use crate::error::DockerError;

verus! {

/// HTTP method of an engine request.
#[derive(Clone, Copy, Debug, PartialEq, Eq, Structural)]
pub enum Method {
    Get,
    Post,
}

/// One fully-formed request to the engine: everything the transport needs
/// to send it.
#[derive(Debug)]
pub struct RequestSpec {
    pub method: Method,
    /// Path and query, e.g. `/v1.30/build?q=true`.
    pub path: Vec<u8>,
    pub headers: Vec<(Vec<u8>, Vec<u8>)>,
    pub body: Vec<u8>,
}

/// A byte the form encoding leaves as itself.
pub open spec fn form_safe(b: u8) -> bool {
    ('0' as u8 <= b <= '9' as u8) || ('A' as u8 <= b <= 'Z' as u8) || ('a' as u8 <= b <= 'z' as u8)
        || b == '*' as u8 || b == '-' as u8 || b == '.' as u8 || b == '_' as u8
}

/// A nibble as an upper-case hexadecimal digit.
pub open spec fn upper_hex_digit(n: int) -> u8 {
    if n < 10 {
        ('0' as u8 + n) as u8
    } else {
        ('A' as u8 + (n - 10)) as u8
    }
}

/// One byte under the `application/x-www-form-urlencoded` serializer:
/// digits, letters and `*-._` stand for themselves, a space becomes `+`,
/// every other byte `%XX` with upper-case hexadecimal digits.
pub open spec fn form_byte(b: u8) -> Seq<u8> {
    if form_safe(b) {
        seq![b]
    } else if b == 0x20 {
        seq!['+' as u8]
    } else {
        seq!['%' as u8, upper_hex_digit((b / 16) as int), upper_hex_digit((b % 16) as int)]
    }
}

/// The `application/x-www-form-urlencoded` byte-serialization of a byte
/// string: each byte encoded by `form_byte`.
pub open spec fn form_encoded_of(s: Seq<u8>) -> Seq<u8>
    decreases s.len(),
{
    if s.len() == 0 {
        Seq::empty()
    } else {
        form_byte(s[0]) + form_encoded_of(s.drop_first())
    }
}

/// Relies on url's `form_urlencoded::byte_serialize`: the
/// `application/x-www-form-urlencoded` serializer, implementing exactly
/// the byte map `form_byte` above.
#[verifier::external_body]
fn form_encode(b: &[u8]) -> (r: Vec<u8>)
    ensures
        r@ == form_encoded_of(b@),
{
    url::form_urlencoded::byte_serialize(b).collect::<String>().into_bytes()
}

/// A byte string of only safe bytes comes through the encoding as it went
/// in.
pub proof fn lemma_form_encoded_safe(s: Seq<u8>)
    requires
        forall|k: int| 0 <= k < s.len() ==> form_safe(#[trigger] s[k]),
    ensures
        form_encoded_of(s) == s,
    decreases s.len(),
{
    if s.len() > 0 {
        assert(form_safe(s[0]));
        assert(forall|k: int|
            0 <= k < s.drop_first().len() ==> form_safe(#[trigger] s.drop_first()[k]));
        lemma_form_encoded_safe(s.drop_first());
        assert(seq![s[0]] + s.drop_first() =~= s);
    }
}

/// The query string for a parameter list: `k=v` pairs joined by `&`, each
/// side form-encoded.
pub open spec fn query_of(ps: Seq<(Seq<u8>, Seq<u8>)>) -> Seq<u8>
    decreases ps.len(),
{
    if ps.len() == 0 {
        Seq::empty()
    } else {
        let head = form_encoded_of(ps[0].0) + seq!['=' as u8] + form_encoded_of(ps[0].1);
        if ps.len() == 1 {
            head
        } else {
            head + seq!['&' as u8] + query_of(ps.drop_first())
        }
    }
}

/// The parameter list as byte sequences.
pub open spec fn params_view(ps: Seq<(Vec<u8>, Vec<u8>)>) -> Seq<(Seq<u8>, Seq<u8>)> {
    ps.map_values(|p: (Vec<u8>, Vec<u8>)| (p.0@, p.1@))
}

/// The query string with no escaping at all: `k=v` pairs joined by `&`.
pub open spec fn plain_query(ps: Seq<(Seq<u8>, Seq<u8>)>) -> Seq<u8>
    decreases ps.len(),
{
    if ps.len() == 0 {
        Seq::empty()
    } else {
        let head = ps[0].0 + seq!['=' as u8] + ps[0].1;
        if ps.len() == 1 {
            head
        } else {
            head + seq!['&' as u8] + plain_query(ps.drop_first())
        }
    }
}

/// Parameters of only safe bytes need no escaping: their query is the
/// literal `k=v&...` byte string.
pub proof fn lemma_query_plain(ps: Seq<(Seq<u8>, Seq<u8>)>)
    requires
        forall|j: int, k: int|
            0 <= j < ps.len() && 0 <= k < ps[j].0.len() ==> form_safe(#[trigger] ps[j].0[k]),
        forall|j: int, k: int|
            0 <= j < ps.len() && 0 <= k < ps[j].1.len() ==> form_safe(#[trigger] ps[j].1[k]),
    ensures
        query_of(ps) == plain_query(ps),
    decreases ps.len(),
{
    if ps.len() > 0 {
        assert(forall|k: int| 0 <= k < ps[0].0.len() ==> form_safe(#[trigger] ps[0].0[k]));
        assert(forall|k: int| 0 <= k < ps[0].1.len() ==> form_safe(#[trigger] ps[0].1[k]));
        lemma_form_encoded_safe(ps[0].0);
        lemma_form_encoded_safe(ps[0].1);
        if ps.len() > 1 {
            assert(forall|j: int, k: int|
                0 <= j < ps.drop_first().len() && 0 <= k < ps.drop_first()[j].0.len()
                    ==> form_safe(#[trigger] ps.drop_first()[j].0[k]));
            assert(forall|j: int, k: int|
                0 <= j < ps.drop_first().len() && 0 <= k < ps.drop_first()[j].1.len()
                    ==> form_safe(#[trigger] ps.drop_first()[j].1[k]));
            lemma_query_plain(ps.drop_first());
        }
    }
}

/// Builds the query string for `ps`.
pub fn build_query(ps: &Vec<(Vec<u8>, Vec<u8>)>) -> (r: Vec<u8>)
    ensures
        r@ == query_of(params_view(ps@)),
{
    let mut out: Vec<u8> = Vec::new();
    let mut k: usize = 0;
    if ps.len() == 0 {
        assert(out@ =~= query_of(params_view(ps@)));
        return out;
    }
    proof {
        assert(params_view(ps@).subrange(0, ps@.len() as int) =~= params_view(ps@));
        assert(out@ + query_of(params_view(ps@)) =~= query_of(params_view(ps@)));
    }
    while k < ps.len()
        invariant
            k <= ps@.len(),
            0 < ps@.len(),
            k < ps@.len() ==> out@ + query_of(params_view(ps@).subrange(k as int, ps@.len() as int))
                == query_of(params_view(ps@)),
            k == ps@.len() ==> out@ == query_of(params_view(ps@)),
        decreases ps@.len() - k,
    {
        let ghost out0 = out@;
        let ghost pv = params_view(ps@);
        let ghost tail_k = pv.subrange(k as int, pv.len() as int);
        let enc_k = form_encode(ps[k].0.as_slice());
        let enc_v = form_encode(ps[k].1.as_slice());
        proof {
            assert(pv[k as int] == (ps@[k as int].0@, ps@[k as int].1@));
            assert(tail_k[0] == pv[k as int]);
            assert(tail_k.drop_first() =~= pv.subrange(k + 1, pv.len() as int));
        }
        append_bytes(&mut out, enc_k.as_slice());
        out.push('=' as u8);
        append_bytes(&mut out, enc_v.as_slice());
        proof {
            let head = form_encoded_of(pv[k as int].0) + seq!['=' as u8] + form_encoded_of(
                pv[k as int].1,
            );
            assert(out@ =~= out0 + head);
        }
        if k + 1 < ps.len() {
            out.push('&' as u8);
            proof {
                let head = form_encoded_of(pv[k as int].0) + seq!['=' as u8] + form_encoded_of(
                    pv[k as int].1,
                );
                assert(query_of(tail_k) == head + seq!['&' as u8] + query_of(
                    pv.subrange(k + 1, pv.len() as int),
                ));
                assert(out@ + query_of(pv.subrange(k + 1, pv.len() as int)) =~= out0 + query_of(
                    tail_k,
                ));
            }
        } else {
            proof {
                let head = form_encoded_of(pv[k as int].0) + seq!['=' as u8] + form_encoded_of(
                    pv[k as int].1,
                );
                assert(tail_k.len() == 1);
                assert(query_of(tail_k) == head);
                assert(out@ =~= out0 + query_of(tail_k));
            }
        }
        k = k + 1;
    }
    out
}

// Paths of the engine's API, version prefix included.
pub open spec fn build_path() -> Seq<u8> {
    "/v1.30/build".spec_bytes()
}

pub open spec fn create_path() -> Seq<u8> {
    "/v1.30/containers/create".spec_bytes()
}

pub open spec fn containers_prefix() -> Seq<u8> {
    "/v1.30/containers/".spec_bytes()
}

pub open spec fn start_suffix() -> Seq<u8> {
    "/start".spec_bytes()
}

pub open spec fn logs_suffix() -> Seq<u8> {
    "/logs?".spec_bytes()
}

/// The fixed query of an attach-logs request.
pub open spec fn logs_params() -> Seq<(Seq<u8>, Seq<u8>)> {
    seq![
        ("follow".spec_bytes(), "true".spec_bytes()),
        ("stdout".spec_bytes(), "true".spec_bytes()),
        ("stderr".spec_bytes(), "true".spec_bytes()),
    ]
}

/// The engine client: builds the requests of the four operations the
/// pipeline uses and interprets their response statuses. The transport
/// that carries them lives outside the crate.
pub struct Docker {
}

impl Docker {
    /// A client for the engine's local socket.
    pub fn new() -> (r: Docker) {
        Docker {  }
    }

    /// The request that starts the container `id`:
    /// `POST /v1.30/containers/{id}/start`, no body.
    pub fn start_container(&self, id: &Vec<u8>) -> (r: RequestSpec)
        ensures
            r.method == Method::Post,
            r.path@ == containers_prefix() + id@ + start_suffix(),
            r.headers@.len() == 0,
            r.body@.len() == 0,
    {
        let mut path: Vec<u8> = Vec::new();
        append_bytes(&mut path, "/v1.30/containers/".as_bytes());
        append_bytes(&mut path, id.as_slice());
        append_bytes(&mut path, "/start".as_bytes());
        RequestSpec { method: Method::Post, path, headers: Vec::new(), body: Vec::new() }
    }

    /// The request that attaches to the logs of the container `id`:
    /// `GET /v1.30/containers/{id}/logs?follow=true&stdout=true&stderr=true`
    /// with a `Connection: upgrade` header, no body.
    pub fn logs(&self, container_id: &Vec<u8>) -> (r: RequestSpec)
        ensures
            r.method == Method::Get,
            r.path@ == containers_prefix() + container_id@ + logs_suffix() + query_of(
                logs_params(),
            ),
            r.headers@.len() == 1,
            r.headers@[0].0@ == "Connection".spec_bytes(),
            r.headers@[0].1@ == "upgrade".spec_bytes(),
            r.body@.len() == 0,
    {
        let mut path: Vec<u8> = Vec::new();
        append_bytes(&mut path, "/v1.30/containers/".as_bytes());
        append_bytes(&mut path, container_id.as_slice());
        append_bytes(&mut path, "/logs?".as_bytes());
        let mut ps: Vec<(Vec<u8>, Vec<u8>)> = Vec::new();
        let mut follow: Vec<u8> = Vec::new();
        append_bytes(&mut follow, "follow".as_bytes());
        let mut stdout_k: Vec<u8> = Vec::new();
        append_bytes(&mut stdout_k, "stdout".as_bytes());
        let mut stderr_k: Vec<u8> = Vec::new();
        append_bytes(&mut stderr_k, "stderr".as_bytes());
        let mut t1: Vec<u8> = Vec::new();
        append_bytes(&mut t1, "true".as_bytes());
        let mut t2: Vec<u8> = Vec::new();
        append_bytes(&mut t2, "true".as_bytes());
        let mut t3: Vec<u8> = Vec::new();
        append_bytes(&mut t3, "true".as_bytes());
        ps.push((follow, t1));
        ps.push((stdout_k, t2));
        ps.push((stderr_k, t3));
        assert(params_view(ps@) =~= logs_params());
        let q = build_query(&ps);
        append_bytes(&mut path, q.as_slice());
        let mut headers: Vec<(Vec<u8>, Vec<u8>)> = Vec::new();
        let mut hk: Vec<u8> = Vec::new();
        append_bytes(&mut hk, "Connection".as_bytes());
        let mut hv: Vec<u8> = Vec::new();
        append_bytes(&mut hv, "upgrade".as_bytes());
        headers.push((hk, hv));
        RequestSpec { method: Method::Get, path, headers, body: Vec::new() }
    }
}

/// What a build-image response status means: the engine streams records on
/// 200, refused the context on 400, and anything else is its own failure.
pub fn build_response_status(status: u16) -> (r: Result<(), DockerError>)
    ensures
        status == 200 ==> r == Result::<(), DockerError>::Ok(()),
        status == 400 ==> r == Result::<(), DockerError>::Err(DockerError::BadRequest),
        status != 200 && status != 400 ==> r == Result::<(), DockerError>::Err(
            DockerError::InternalServerError,
        ),
{
    if status == 200 {
        Ok(())
    } else if status == 400 {
        Err(DockerError::BadRequest)
    } else {
        Err(DockerError::InternalServerError)
    }
}

/// What a start-container response status means: 204 started, 304 was
/// already running; 404 no such container.
pub fn start_response_status(status: u16) -> (r: Result<(), DockerError>)
    ensures
        status == 204 || status == 304 ==> r == Result::<(), DockerError>::Ok(()),
        status == 404 ==> r == Result::<(), DockerError>::Err(DockerError::NotFound),
        status != 204 && status != 304 && status != 404 ==> r == Result::<(), DockerError>::Err(
            DockerError::InternalServerError,
        ),
{
    if status == 204 || status == 304 {
        Ok(())
    } else if status == 404 {
        Err(DockerError::NotFound)
    } else {
        Err(DockerError::InternalServerError)
    }
}

/// What an attach-logs response status means: the engine streams frames on
/// 200 or after a 101 upgrade; 404 no such container.
pub fn logs_response_status(status: u16) -> (r: Result<(), DockerError>)
    ensures
        status == 200 || status == 101 ==> r == Result::<(), DockerError>::Ok(()),
        status == 404 ==> r == Result::<(), DockerError>::Err(DockerError::NotFound),
        status != 200 && status != 101 && status != 404 ==> r == Result::<(), DockerError>::Err(
            DockerError::InternalServerError,
        ),
{
    if status == 200 || status == 101 {
        Ok(())
    } else if status == 404 {
        Err(DockerError::NotFound)
    } else {
        Err(DockerError::InternalServerError)
    }
}

} // verus!
