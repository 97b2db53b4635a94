//! Creating containers: the create request and the reading of its answer.

use vstd::prelude::*;
use vstd::string::StringSliceAdditionalSpecFns;
use crate::bytesutil::{append_bytes, Scan};
use crate::client::{Method, RequestSpec, query_of, params_view, create_path, build_query};
use crate::error::DockerError;
use crate::json::{doc_members, first_val, JVal, ws_exec, walk_members, ValCap};

verus! {

/// Builder for a container-create request:
/// `POST /v1.30/containers/create`, the configuration as its JSON body.
pub struct ContainerBuilder {
    pub params: Vec<(Vec<u8>, Vec<u8>)>,
    pub body: Vec<u8>,
    pub headers: Vec<(Vec<u8>, Vec<u8>)>,
}

impl ContainerBuilder {
    /// A builder with no parameters, headers or body.
    pub fn new() -> (r: ContainerBuilder)
        ensures
            r.params@.len() == 0,
            r.body@.len() == 0,
            r.headers@.len() == 0,
    {
        ContainerBuilder { params: Vec::new(), body: Vec::new(), headers: Vec::new() }
    }

    /// Adds one query parameter. Each key is set once per request.
    pub fn set_param(&mut self, key: &str, value: &str)
        ensures
            final(self).params@.len() == old(self).params@.len() + 1,
            final(self).params@.last().0@ == key.spec_bytes(),
            final(self).params@.last().1@ == value.spec_bytes(),
            forall|k: int|
                0 <= k < old(self).params@.len() ==> final(self).params@[k] == old(
                    self,
                ).params@[k],
            final(self).body == old(self).body,
            final(self).headers == old(self).headers,
    {
        let mut kv: Vec<u8> = Vec::new();
        append_bytes(&mut kv, key.as_bytes());
        let mut vv: Vec<u8> = Vec::new();
        append_bytes(&mut vv, value.as_bytes());
        self.params.push((kv, vv));
    }

    /// Sets the JSON configuration to send.
    pub fn set_body(&mut self, body: Vec<u8>)
        ensures
            final(self).body == body,
            final(self).params == old(self).params,
            final(self).headers == old(self).headers,
    {
        self.body = body;
    }

    /// Adds one header.
    pub fn set_header(&mut self, name: &str, value: &str)
        ensures
            final(self).headers@.len() == old(self).headers@.len() + 1,
            final(self).headers@.last().0@ == name.spec_bytes(),
            final(self).headers@.last().1@ == value.spec_bytes(),
            forall|k: int|
                0 <= k < old(self).headers@.len() ==> final(self).headers@[k] == old(
                    self,
                ).headers@[k],
            final(self).body == old(self).body,
            final(self).params == old(self).params,
    {
        let mut nv: Vec<u8> = Vec::new();
        append_bytes(&mut nv, name.as_bytes());
        let mut vv: Vec<u8> = Vec::new();
        append_bytes(&mut vv, value.as_bytes());
        self.headers.push((nv, vv));
    }

    /// Adds one query parameter.
    pub fn with_param(self, key: &str, value: &str) -> (r: ContainerBuilder)
        ensures
            r.params@.len() == self.params@.len() + 1,
            r.params@.last().0@ == key.spec_bytes(),
            r.params@.last().1@ == value.spec_bytes(),
            forall|k: int| 0 <= k < self.params@.len() ==> r.params@[k] == self.params@[k],
            r.body == self.body,
            r.headers == self.headers,
    {
        let mut b = self;
        b.set_param(key, value);
        b
    }

    /// Adds one header.
    pub fn with_header(self, name: &str, value: &str) -> (r: ContainerBuilder)
        ensures
            r.headers@.len() == self.headers@.len() + 1,
            r.headers@.last().0@ == name.spec_bytes(),
            r.headers@.last().1@ == value.spec_bytes(),
            forall|k: int| 0 <= k < self.headers@.len() ==> r.headers@[k] == self.headers@[k],
            r.body == self.body,
            r.params == self.params,
    {
        let mut b = self;
        b.set_header(name, value);
        b
    }

    /// Sets the JSON configuration to send.
    pub fn with_body(self, body: Vec<u8>) -> (r: ContainerBuilder)
        ensures
            r.body == body,
            r.params == self.params,
            r.headers == self.headers,
    {
        let mut b = self;
        b.set_body(body);
        b
    }

    /// The create request these choices describe.
    pub fn build(self) -> (r: Result<RequestSpec, DockerError>)
        ensures
            ({
                &&& r is Ok
                &&& (r matches Ok(req) ==> {
                    &&& req.method == Method::Post
                    &&& req.path@ == create_path() + (if self.params@.len() == 0 {
                        Seq::<u8>::empty()
                    } else {
                        seq!['?' as u8] + query_of(params_view(self.params@))
                    })
                    &&& req.headers == self.headers
                    &&& req.body == self.body
                })
            }),
    {
        let mut path: Vec<u8> = Vec::new();
        append_bytes(&mut path, "/v1.30/containers/create".as_bytes());
        if self.params.len() > 0 {
            path.push('?' as u8);
            let q = build_query(&self.params);
            append_bytes(&mut path, q.as_slice());
        }
        Ok(RequestSpec { method: Method::Post, path, headers: self.headers, body: self.body })
    }
}

pub open spec fn key_id() -> Seq<u8> {
    seq!['I' as u8, 'd' as u8]
}

fn key_id_vec() -> (r: Vec<u8>)
    ensures
        r@ == key_id(),
{
    let mut v: Vec<u8> = Vec::new();
    v.push('I' as u8);
    v.push('d' as u8);
    assert(v@ =~= key_id());
    v
}

/// Reads the engine's container-create response. The body must be one
/// JSON object; on 201 the value of its `Id` member is the new container's
/// id. 406 means the container cannot be attached to, 400 and 404 fault
/// the request, everything else is the engine's own failure. A body that
/// is not an object, or a 201 body without a string `Id`, is unreadable.
pub fn create_response(status: u16, body: &Vec<u8>) -> (r: Result<Vec<u8>, DockerError>)
    ensures
        ({
            match doc_members(body@) {
                Option::None => r == Result::<Vec<u8>, DockerError>::Err(DockerError::UnknownError),
                Option::Some(ms) => {
                    &&& (status == 201 ==> (match first_val(ms, key_id()) {
                        Option::Some(JVal::Str(id)) => r matches Ok(v) && v@ == id,
                        _ => r == Result::<Vec<u8>, DockerError>::Err(DockerError::UnknownError),
                    }))
                    &&& (status == 406 ==> r == Result::<Vec<u8>, DockerError>::Err(
                        DockerError::CantAttach,
                    ))
                    &&& (status == 404 || status == 400 ==> r == Result::<Vec<u8>, DockerError>::Err(
                        DockerError::BadRequest,
                    ))
                    &&& (status != 201 && status != 406 && status != 404 && status != 400 ==> r
                        == Result::<Vec<u8>, DockerError>::Err(DockerError::InternalServerError))
                },
            }
        }),
{
    let j = ws_exec(body, 0);
    if j >= body.len() || body[j] != '{' as u8 {
        return Err(DockerError::UnknownError);
    }
    let k1 = key_id_vec();
    let k2 = crate::json::dummy_key_vec(1);
    let k3 = crate::json::dummy_key_vec(2);
    proof {
        assert(k1@ != k2@) by {
            assert(k1@.len() == 2 && k2@.len() == 1);
        }
        assert(k1@ != k3@) by {
            assert(k1@.len() == 2 && k3@.len() == 1);
        }
        assert(k2@ != k3@) by {
            if k2@ == k3@ {
                assert(k2@[0] == k3@[0]);
            }
        }
    }
    match walk_members(body, j + 1, true, &k1, &k2, &k3) {
        Scan::Found(caps, k) => {
            proof {
                crate::json::lemma_members_bounds(body@, j + 1 as int, true);
            }
            let e = ws_exec(body, k);
            if e != body.len() {
                return Err(DockerError::UnknownError);
            }
            if status == 201 {
                match caps.c1 {
                    Option::Some(ValCap::VStr(id)) => Ok(id),
                    _ => Err(DockerError::UnknownError),
                }
            } else if status == 406 {
                Err(DockerError::CantAttach)
            } else if status == 404 || status == 400 {
                Err(DockerError::BadRequest)
            } else {
                Err(DockerError::InternalServerError)
            }
        },
        Scan::Needs => Err(DockerError::UnknownError),
        Scan::Bad => Err(DockerError::UnknownError),
    }
}

} // verus!
