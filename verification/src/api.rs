//! The HTTP face of the service: the submission read from a request body,
//! the output written back, and the routing and reply rules.
//!
//! Serializing the reply and moving bytes over the wire belong to the
//! front end outside this crate; what is decided here is which submission
//! a body holds, which route a request takes, and which status and text
//! answer each outcome.

use vstd::prelude::*;
use vstd::string::StringSliceAdditionalSpecFns;
use crate::bytesutil::{bytes_eq, Scan};
use crate::executor::{ExecutionError, Language, utf8_lossy_of, bytes_to_string_lossy};
use crate::json::{
    doc_members, first_val, JVal, key_code, key_code_vec, ws_exec, walk_members, ValCap,
    dummy_key_vec,
};

verus! {

/// One submission: the source code and the language it is in.
pub struct Submission {
    pub code: String,
    pub lang: Language,
}

/// What an execution answers: the program's captured output, or the text
/// of its compile error.
#[derive(Debug)]
pub enum Output {
    CompileError { error: String },
    Output { stdout: String, stderr: String },
}

pub open spec fn key_lang() -> Seq<u8> {
    seq!['l' as u8, 'a' as u8, 'n' as u8, 'g' as u8]
}

fn key_lang_vec() -> (r: Vec<u8>)
    ensures
        r@ == key_lang(),
{
    let mut v: Vec<u8> = Vec::new();
    v.push('l' as u8);
    v.push('a' as u8);
    v.push('n' as u8);
    v.push('g' as u8);
    assert(v@ =~= key_lang());
    v
}

/// The language a `lang` member names.
pub open spec fn lang_of(b: Seq<u8>) -> Option<Language> {
    if b == "c".spec_bytes() {
        Option::Some(Language::C)
    } else if b == "python2.7".spec_bytes() {
        Option::Some(Language::Python27)
    } else {
        Option::None
    }
}

/// The submission a request body holds: the body must be one JSON object
/// whose `code` member is a string and whose `lang` member names a
/// supported language. The grammar refuses ill-formed UTF-8 in string
/// content, so the `code` bytes decode to text without replacement.
pub open spec fn submission_of(s: Seq<u8>) -> Option<(Seq<u8>, Language)> {
    match doc_members(s) {
        Option::None => Option::None,
        Option::Some(ms) => match (first_val(ms, key_code()), first_val(ms, key_lang())) {
            (Option::Some(JVal::Str(c)), Option::Some(JVal::Str(l))) => match lang_of(l) {
                Option::Some(lang) => Option::Some((c, lang)),
                Option::None => Option::None,
            },
            _ => Option::None,
        },
    }
}

/// Reads a submission from a request body.
pub fn parse_submission(body: &Vec<u8>) -> (r: Result<Submission, ()>)
    ensures
        ({
            match submission_of(body@) {
                Option::Some(cl) => r matches Ok(sub) && sub.code@ == utf8_lossy_of(cl.0)
                    && sub.lang == cl.1,
                Option::None => r is Err,
            }
        }),
{
    let j = ws_exec(body, 0);
    if j >= body.len() || body[j] != '{' as u8 {
        return Err(());
    }
    let k1 = key_code_vec();
    let k2 = key_lang_vec();
    let k3 = dummy_key_vec(1);
    proof {
        assert(k1@ != k2@) by {
            assert(k1@[0] == 'c' as u8 && k2@[0] == 'l' as u8);
        }
        assert(k1@ != k3@) by {
            assert(k1@.len() == 4 && k3@.len() == 1);
        }
        assert(k2@ != k3@) by {
            assert(k2@.len() == 4 && k3@.len() == 1);
        }
    }
    match walk_members(body, j + 1, true, &k1, &k2, &k3) {
        Scan::Found(caps, k) => {
            proof {
                crate::json::lemma_members_bounds(body@, j + 1 as int, true);
            }
            let e = ws_exec(body, k);
            if e != body.len() {
                return Err(());
            }
            match (caps.c1, caps.c2) {
                (Option::Some(ValCap::VStr(code)), Option::Some(ValCap::VStr(lang))) => {
                    let lang_val = if bytes_eq(lang.as_slice(), "c".as_bytes()) {
                        Option::Some(Language::C)
                    } else if bytes_eq(lang.as_slice(), "python2.7".as_bytes()) {
                        Option::Some(Language::Python27)
                    } else {
                        Option::None
                    };
                    match lang_val {
                        Option::Some(l) => Ok(
                            Submission { code: bytes_to_string_lossy(&code), lang: l },
                        ),
                        Option::None => Err(()),
                    }
                },
                _ => Err(()),
            }
        },
        Scan::Needs => Err(()),
        Scan::Bad => Err(()),
    }
}

/// What the front end answers: an execution's output to be serialized, or
/// one of the three fixed texts.
#[derive(Debug)]
pub enum ApiReply {
    Success(Output),
    InvalidJson,
    UnknownError,
    InvalidUrl,
}

impl ApiReply {
    /// The HTTP status this reply carries. Only an unreadable request is
    /// a client error; a failed execution still answers 200 with a fixed
    /// text.
    pub fn status(&self) -> (r: u16)
        ensures
            *self is Success ==> r == 200,
            *self is InvalidJson ==> r == 400,
            *self is UnknownError ==> r == 200,
            *self is InvalidUrl ==> r == 404,
    {
        match self {
            ApiReply::Success(o) => 200,
            ApiReply::InvalidJson => 400,
            ApiReply::UnknownError => 200,
            ApiReply::InvalidUrl => 404,
        }
    }

    /// The fixed body text of a non-success reply; a success is
    /// serialized by the front end instead.
    pub fn body_text(&self) -> (r: Option<String>)
        ensures
            *self is Success ==> r is None,
            *self is InvalidJson ==> (r matches Some(s) && s@ == "Invalid json"@),
            *self is UnknownError ==> (r matches Some(s) && s@ == "Unknown error"@),
            *self is InvalidUrl ==> (r matches Some(s) && s@ == "Invalid URL"@),
    {
        match self {
            ApiReply::Success(o) => Option::None,
            ApiReply::InvalidJson => Option::Some("Invalid json".to_owned()),
            ApiReply::UnknownError => Option::Some("Unknown error".to_owned()),
            ApiReply::InvalidUrl => Option::Some("Invalid URL".to_owned()),
        }
    }
}

/// Whether a request takes the execute route: `POST /execute`.
pub fn is_execute_route(is_post: bool, path: &str) -> (r: bool)
    ensures
        r == (is_post && path.spec_bytes() == "/execute".spec_bytes()),
{
    is_post && bytes_eq(path.as_bytes(), "/execute".as_bytes())
}

/// The reply for a settled execution: its output on success, the fixed
/// failure text otherwise.
pub fn reply_for(result: Result<Output, ExecutionError>) -> (r: ApiReply)
    ensures
        result matches Ok(o) ==> (r matches ApiReply::Success(o2) && o2 == o),
        result is Err ==> r is UnknownError,
{
    match result {
        Ok(o) => ApiReply::Success(o),
        Err(e) => ApiReply::UnknownError,
    }
}

/// The REST front end: routes requests and shapes replies around an
/// executor.
pub struct APIService<E> {
    pub executor: E,
}

impl<E> APIService<E> {
    /// A front end around `executor`.
    pub fn new(executor: E) -> (r: APIService<E>)
        ensures
            r.executor == executor,
    {
        APIService { executor }
    }
}

} // verus!
