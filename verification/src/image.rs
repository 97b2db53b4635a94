//! Decoder for the container engine's build-progress stream.
//!
//! While an image builds, the engine streams one JSON object per record:
//! either a step line `{"stream": "..."}`, or a structured error delimiter
//! `{"errorDetail": {"code": ..., "message": "..."}, "error": "..."}`.
//! Records follow one another, separated at most by whitespace, and are cut
//! into network chunks at arbitrary points.

use vstd::prelude::*;
use vstd::string::StringSliceAdditionalSpecFns;
use crate::bytesutil::{Parsed, Scan, append_bytes, tail_from};
use crate::client::{Method, RequestSpec, query_of, params_view, build_path, build_query};
use crate::error::DockerError;
use crate::json::{
    sp_ws, sp_members, first_val, JVal, key_code, key_message, ws_exec, walk_members, ValCap,
    lemma_ws_bounds, lemma_ws_stable, lemma_ws_shift, lemma_members_bounds, lemma_members_stable,
    lemma_members_shift, shifted,
};
use crate::stream::{
    good_parser, shift_parsed, start_state, run_from, quiescent, lemma_run_from,
};

verus! {

/// The build stream held bytes that do not form a well-formed record.
#[derive(Clone, Copy, Debug, PartialEq, Eq, Structural)]
pub struct DecodeError;

/// The structured part of an error record.
#[derive(Debug)]
pub struct Detail {
    pub code: i32,
    pub message: Vec<u8>,
}

/// One record of the build stream.
#[derive(Debug)]
pub enum Message {
    /// A textual step line: progress, cache hints, compiler output.
    Stream { stream: Vec<u8> },
    /// The error delimiter the engine sends when a step fails.
    ErrorDetail { error_detail: Detail, error: Vec<u8> },
}

/// Mathematical form of one record.
pub ghost enum MessageModel {
    Stream { stream: Seq<u8> },
    ErrorDetail { code: int, message: Seq<u8>, error: Seq<u8> },
}

impl View for Message {
    type V = MessageModel;

    open spec fn view(&self) -> MessageModel {
        match self {
            Message::Stream { stream } => MessageModel::Stream { stream: stream@ },
            Message::ErrorDetail { error_detail, error } => MessageModel::ErrorDetail {
                code: error_detail.code as int,
                message: error_detail.message@,
                error: error@,
            },
        }
    }
}

pub open spec fn key_stream() -> Seq<u8> {
    seq!['s' as u8, 't' as u8, 'r' as u8, 'e' as u8, 'a' as u8, 'm' as u8]
}

pub open spec fn key_error_detail() -> Seq<u8> {
    seq![
        'e' as u8,
        'r' as u8,
        'r' as u8,
        'o' as u8,
        'r' as u8,
        'D' as u8,
        'e' as u8,
        't' as u8,
        'a' as u8,
        'i' as u8,
        'l' as u8,
    ]
}

pub open spec fn key_error() -> Seq<u8> {
    seq!['e' as u8, 'r' as u8, 'r' as u8, 'o' as u8, 'r' as u8]
}

pub fn key_stream_vec() -> (r: Vec<u8>)
    ensures
        r@ == key_stream(),
{
    let mut v: Vec<u8> = Vec::new();
    v.push('s' as u8);
    v.push('t' as u8);
    v.push('r' as u8);
    v.push('e' as u8);
    v.push('a' as u8);
    v.push('m' as u8);
    assert(v@ =~= key_stream());
    v
}

pub fn key_error_detail_vec() -> (r: Vec<u8>)
    ensures
        r@ == key_error_detail(),
{
    let mut v: Vec<u8> = Vec::new();
    v.push('e' as u8);
    v.push('r' as u8);
    v.push('r' as u8);
    v.push('o' as u8);
    v.push('r' as u8);
    v.push('D' as u8);
    v.push('e' as u8);
    v.push('t' as u8);
    v.push('a' as u8);
    v.push('i' as u8);
    v.push('l' as u8);
    assert(v@ =~= key_error_detail());
    v
}

pub fn key_error_vec() -> (r: Vec<u8>)
    ensures
        r@ == key_error(),
{
    let mut v: Vec<u8> = Vec::new();
    v.push('e' as u8);
    v.push('r' as u8);
    v.push('r' as u8);
    v.push('o' as u8);
    v.push('r' as u8);
    assert(v@ =~= key_error());
    v
}

/// What record an object's members form, if any. A `stream` member that
/// holds a string makes a step record; otherwise an `errorDetail` object
/// holding an integral `code` and a string `message`, next to a string
/// `error` member, makes an error record; any other shape is no record.
pub open spec fn classify(ms: Seq<(Seq<u8>, JVal)>) -> Option<MessageModel> {
    match first_val(ms, key_stream()) {
        Option::Some(JVal::Str(b)) => Option::Some(MessageModel::Stream { stream: b }),
        _ => match first_val(ms, key_error_detail()) {
            Option::Some(JVal::Obj(inner)) => match first_val(ms, key_error()) {
                Option::Some(JVal::Str(e)) => match (
                    first_val(inner, key_code()),
                    first_val(inner, key_message()),
                ) {
                    (Option::Some(JVal::Int(c)), Option::Some(JVal::Str(m))) => if -0x8000_0000 <= c
                        <= 0x7FFF_FFFF {
                        Option::Some(MessageModel::ErrorDetail { code: c as int, message: m, error: e })
                    } else {
                        Option::None
                    },
                    _ => Option::None,
                },
                _ => Option::None,
            },
            _ => Option::None,
        },
    }
}

/// Tries to split one build record off `s` at position `i`: leading
/// whitespace, then an object of one of the two record shapes.
pub open spec fn sp_record(s: Seq<u8>, i: int) -> Parsed<MessageModel> {
    let j = sp_ws(s, i);
    if j >= s.len() {
        Parsed::Needs
    } else if j < i || i < 0 {
        Parsed::Bad
    } else if s[j] != '{' as u8 {
        Parsed::Bad
    } else {
        match sp_members(s, j + 1, true) {
            Parsed::Found(ms, k) => match classify(ms) {
                Option::Some(m) => Parsed::Found(m, k),
                Option::None => Parsed::Bad,
            },
            Parsed::Needs => Parsed::Needs,
            Parsed::Bad => Parsed::Bad,
        }
    }
}

/// `sp_record` as a value, for the decoder model in `stream`.
pub open spec fn record_parser() -> spec_fn(Seq<u8>, int) -> Parsed<MessageModel> {
    |s: Seq<u8>, i: int| sp_record(s, i)
}

/// The record parser cannot see chunk boundaries.
pub proof fn lemma_record_parser_good()
    ensures
        good_parser(record_parser()),
{
    let p = record_parser();
    assert forall|s: Seq<u8>, e: Seq<u8>, i: int|
        0 <= i <= s.len() && !(p(s, i) is Needs) implies #[trigger] p(s + e, i) == p(s, i) by {
        let j = sp_ws(s, i);
        lemma_ws_bounds(s, i);
        lemma_ws_stable(s, e, i);
        if i <= j < s.len() {
            assert((s + e)[j] == s[j]);
            if s[j] == '{' as u8 {
                lemma_members_stable(s, e, j + 1, true);
            }
        }
    }
    assert forall|s: Seq<u8>, i: int| 0 <= i implies (#[trigger] p(s, i) matches Parsed::Found(v, j)
        ==> i < j <= s.len()) by {
        if p(s, i) is Found {
            let j = sp_ws(s, i);
            lemma_ws_bounds(s, i);
            lemma_members_bounds(s, j + 1, true);
        }
    }
    assert forall|s: Seq<u8>, i: int| i >= s.len() implies #[trigger] p(s, i) is Needs by {
        if i >= 0 {
            lemma_ws_bounds(s, i);
        }
    }
    assert forall|a: Seq<u8>, s: Seq<u8>, i: int| 0 <= i implies #[trigger] p(a + s, a.len() + i)
        == shift_parsed(p(s, i), a.len() as int) by {
        let j = sp_ws(s, i);
        let dd = a.len() as int;
        lemma_ws_bounds(s, i);
        lemma_ws_shift(a, s, i);
        assert(sp_ws(a + s, dd + i) == dd + j);
        assert((a + s).len() == dd + s.len());
        if i <= j < s.len() {
            assert((a + s)[dd + j] == s[j]);
            if s[j] == '{' as u8 {
                lemma_members_shift(a, s, j + 1, true);
                assert(sp_members(a + s, dd + j + 1, true) == shifted(
                    sp_members(s, j + 1, true),
                    dd,
                ));
            }
        }
    }
}

/// Tries to decode one record from the front of `buf`.
fn scan_record(buf: &Vec<u8>) -> (r: Scan<Message>)
    ensures
        ({
            let sp = sp_record(buf@, 0);
            &&& (sp matches Parsed::Found(m, j) ==> r matches Scan::Found(msg, jj) && msg@ == m
                && jj == j)
            &&& (sp is Needs ==> r is Needs)
            &&& (sp is Bad ==> r is Bad)
        }),
{
    let j = ws_exec(buf, 0);
    if j >= buf.len() {
        return Scan::Needs;
    }
    if buf[j] != '{' as u8 {
        return Scan::Bad;
    }
    let k1 = key_stream_vec();
    let k2 = key_error_detail_vec();
    let k3 = key_error_vec();
    match walk_members(buf, j + 1, true, &k1, &k2, &k3) {
        Scan::Found(caps, k) => {
            match caps.c1 {
                Option::Some(ValCap::VStr(b)) => Scan::Found(Message::Stream { stream: b }, k),
                _ => {
                    match (caps.c2, caps.c3) {
                        (
                            Option::Some(ValCap::VObj(oc)),
                            Option::Some(ValCap::VStr(e)),
                        ) => match (oc.code, oc.message) {
                            (Option::Some(Option::Some(c)), Option::Some(Option::Some(m))) => {
                                if -0x8000_0000i64 <= c && c <= 0x7FFF_FFFFi64 {
                                    Scan::Found(
                                        Message::ErrorDetail {
                                            error_detail: Detail { code: c as i32, message: m },
                                            error: e,
                                        },
                                        k,
                                    )
                                } else {
                                    Scan::Bad
                                }
                            },
                            _ => Scan::Bad,
                        },
                        _ => Scan::Bad,
                    }
                },
            }
        },
        Scan::Needs => Scan::Needs,
        Scan::Bad => Scan::Bad,
    }
}

/// Incremental decoder for the build-progress stream. Bytes pushed into
/// `buf` are consumed from the front, one record per `next_message` call.
pub struct BuildMessages {
    pub buf: Vec<u8>,
    pub failed: bool,
}

impl BuildMessages {
    /// A decoder that has seen no bytes.
    pub fn new() -> (r: BuildMessages)
        ensures
            r.buf@ == Seq::<u8>::empty(),
            !r.failed,
    {
        BuildMessages { buf: Vec::new(), failed: false }
    }

    /// Hands the decoder the next chunk of the stream.
    pub fn push_chunk(&mut self, chunk: &[u8])
        ensures
            final(self).buf@ == old(self).buf@ + chunk@,
            final(self).failed == old(self).failed,
    {
        append_bytes(&mut self.buf, chunk);
    }

    /// Yields the next complete record buffered, `Ok(None)` when more
    /// bytes are needed, or an error on a malformed stream; the error
    /// sticks.
    pub fn next_message(&mut self) -> (r: Result<Option<Message>, DecodeError>)
        ensures
            ({
                let sp = sp_record(old(self).buf@, 0);
                &&& (old(self).failed ==> r == Result::<Option<Message>, DecodeError>::Err(
                    DecodeError,
                ) && *final(self) == *old(self))
                &&& (!old(self).failed ==> {
                    &&& (sp matches Parsed::Found(m, j) ==> r matches Ok(Some(msg)) && msg@ == m
                        && final(self).buf@ == old(self).buf@.subrange(
                        j,
                        old(self).buf@.len() as int,
                    ) && !final(self).failed)
                    &&& (sp is Needs ==> r == Result::<Option<Message>, DecodeError>::Ok(None)
                        && *final(self) == *old(self))
                    &&& (sp is Bad ==> r == Result::<Option<Message>, DecodeError>::Err(
                        DecodeError,
                    ) && final(self).buf@ == old(self).buf@ && final(self).failed)
                })
            }),
    {
        if self.failed {
            return Err(DecodeError);
        }
        match scan_record(&self.buf) {
            Scan::Found(m, j) => {
                proof {
                    lemma_record_parser_good();
                    crate::stream::use_progress(
                        record_parser(),
                        self.buf@,
                        0,
                        m@,
                        j as int,
                    );
                }
                self.buf = tail_from(&self.buf, j);
                Ok(Some(m))
            },
            Scan::Needs => Ok(None),
            Scan::Bad => {
                self.failed = true;
                Err(DecodeError)
            },
        }
    }

    /// Reports whether the stream may end here: an end of input is clean
    /// when nothing but whitespace is buffered.
    pub fn finish(&self) -> (r: Result<(), DecodeError>)
        ensures
            r is Ok <==> (!self.failed && sp_ws(self.buf@, 0) == self.buf@.len()),
    {
        if self.failed {
            return Err(DecodeError);
        }
        let j = ws_exec(&self.buf, 0);
        if j == self.buf.len() {
            Ok(())
        } else {
            Err(DecodeError)
        }
    }
}

/// Build-decoder chunk-independence: however a byte stream of records is
/// cut into chunks, the records the decoder produces, the bytes it still
/// buffers, and whether it failed are the same — they are a function of
/// the bytes alone.
pub proof fn lemma_build_chunk_independence(c1: Seq<Seq<u8>>, c2: Seq<Seq<u8>>)
    requires
        c1.flatten() == c2.flatten(),
    ensures
        run_from(record_parser(), start_state(), c1) == run_from(record_parser(), start_state(), c2),
{
    lemma_record_parser_good();
    let p = record_parser();
    let st = start_state::<MessageModel>();
    assert(quiescent(p, st)) by {
        lemma_ws_bounds(st.buf, 0);
    }
    lemma_run_from(p, st, c1);
    lemma_run_from(p, st, c2);
    assert(st.buf + c1.flatten() =~= st.buf + c2.flatten());
}

/// Builder for a build-image request: `POST /v1.30/build?...`, the tar
/// build context as its body.
pub struct ImageBuilder {
    pub params: Vec<(Vec<u8>, Vec<u8>)>,
    pub body: Option<Vec<u8>>,
    pub headers: Vec<(Vec<u8>, Vec<u8>)>,
}

impl ImageBuilder {
    /// A builder with no parameters, headers or body.
    pub fn new() -> (r: ImageBuilder)
        ensures
            r.params@.len() == 0,
            r.body is None,
            r.headers@.len() == 0,
    {
        ImageBuilder { params: Vec::new(), body: Option::None, headers: Vec::new() }
    }

    /// Adds one query parameter. Each key is set once per request.
    pub fn set_param(&mut self, key: &str, value: &str)
        ensures
            final(self).params@.len() == old(self).params@.len() + 1,
            final(self).params@.last().0@ == key.spec_bytes(),
            final(self).params@.last().1@ == value.spec_bytes(),
            forall|k: int|
                0 <= k < old(self).params@.len() ==> final(self).params@[k] == old(
                    self,
                ).params@[k],
            final(self).body == old(self).body,
            final(self).headers == old(self).headers,
    {
        let mut kv: Vec<u8> = Vec::new();
        append_bytes(&mut kv, key.as_bytes());
        let mut vv: Vec<u8> = Vec::new();
        append_bytes(&mut vv, value.as_bytes());
        self.params.push((kv, vv));
    }

    /// Sets the build context to send.
    pub fn set_body(&mut self, body: Vec<u8>)
        ensures
            final(self).body matches Some(b) && b == body,
            final(self).params == old(self).params,
            final(self).headers == old(self).headers,
    {
        self.body = Option::Some(body);
    }

    /// Adds one header.
    pub fn set_header(&mut self, name: &str, value: &str)
        ensures
            final(self).headers@.len() == old(self).headers@.len() + 1,
            final(self).headers@.last().0@ == name.spec_bytes(),
            final(self).headers@.last().1@ == value.spec_bytes(),
            forall|k: int|
                0 <= k < old(self).headers@.len() ==> final(self).headers@[k] == old(
                    self,
                ).headers@[k],
            final(self).body == old(self).body,
            final(self).params == old(self).params,
    {
        let mut nv: Vec<u8> = Vec::new();
        append_bytes(&mut nv, name.as_bytes());
        let mut vv: Vec<u8> = Vec::new();
        append_bytes(&mut vv, value.as_bytes());
        self.headers.push((nv, vv));
    }

    /// Adds one query parameter.
    pub fn with_param(self, key: &str, value: &str) -> (r: ImageBuilder)
        ensures
            r.params@.len() == self.params@.len() + 1,
            r.params@.last().0@ == key.spec_bytes(),
            r.params@.last().1@ == value.spec_bytes(),
            forall|k: int| 0 <= k < self.params@.len() ==> r.params@[k] == self.params@[k],
            r.body == self.body,
            r.headers == self.headers,
    {
        let mut b = self;
        b.set_param(key, value);
        b
    }

    /// Adds one header.
    pub fn with_header(self, name: &str, value: &str) -> (r: ImageBuilder)
        ensures
            r.headers@.len() == self.headers@.len() + 1,
            r.headers@.last().0@ == name.spec_bytes(),
            r.headers@.last().1@ == value.spec_bytes(),
            forall|k: int| 0 <= k < self.headers@.len() ==> r.headers@[k] == self.headers@[k],
            r.body == self.body,
            r.params == self.params,
    {
        let mut b = self;
        b.set_header(name, value);
        b
    }

    /// Sets the build context to send.
    pub fn with_body(self, archive: Vec<u8>) -> (r: ImageBuilder)
        ensures
            r.body matches Some(b) && b == archive,
            r.params == self.params,
            r.headers == self.headers,
    {
        let mut b = self;
        b.set_body(archive);
        b
    }

    /// The build request these choices describe.
    pub fn build(self) -> (r: Result<RequestSpec, DockerError>)
        ensures
            ({
                &&& r is Ok
                &&& (r matches Ok(req) ==> {
                    &&& req.method == Method::Post
                    &&& req.path@ == build_path() + (if self.params@.len() == 0 {
                        Seq::<u8>::empty()
                    } else {
                        seq!['?' as u8] + query_of(params_view(self.params@))
                    })
                    &&& req.headers == self.headers
                    &&& req.body@ == (match self.body {
                        Option::Some(b) => b@,
                        Option::None => Seq::<u8>::empty(),
                    })
                })
            }),
    {
        let mut path: Vec<u8> = Vec::new();
        append_bytes(&mut path, "/v1.30/build".as_bytes());
        if self.params.len() > 0 {
            path.push('?' as u8);
            let q = build_query(&self.params);
            append_bytes(&mut path, q.as_slice());
        }
        let body = match self.body {
            Option::Some(b) => b,
            Option::None => Vec::new(),
        };
        Ok(RequestSpec { method: Method::Post, path, headers: self.headers, body })
    }
}

} // verus!
