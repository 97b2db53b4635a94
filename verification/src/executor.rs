//! The execution pipeline: from a submission to the program's output.
//!
//! The stages run strictly in order, each entered only when its
//! predecessor succeeded: pack the build context as a tar archive, send it
//! to the engine's build endpoint, fold the streamed build records into an
//! image id (or a compile error), create and start a container from that
//! image, then attach to its logs and gather stdout and stderr. The
//! transport that moves bytes to and from the engine drives these
//! functions from outside; every decision between two reads lives here.

use vstd::prelude::*;
use vstd::string::StringSliceAdditionalSpecFns;
use crate::bytesutil::append_bytes;
use crate::client::{Docker, Method, RequestSpec, query_of, params_view, build_path, create_path};
use crate::container::{ContainerBuilder, create_response, key_id};
use crate::json::doc_members;
use crate::error::DockerError;
use crate::extract::{Transform, TransformModel, step_transform, fold_model};
use crate::image::{BuildMessages, ImageBuilder, record_parser, lemma_record_parser_good};
use crate::json::{sp_ws, first_val, JVal};
use crate::log::{Logs, frame_parser, lemma_frame_parser_good};
use crate::stream::{drain, use_progress, lemma_drain_shift};
use crate::api::{Submission, Output};

verus! {

/// Why an execution failed.
#[derive(Debug)]
pub enum ExecutionError {
    /// The build context could not be packed.
    BadConfig,
    /// The engine, or the transport to it, failed.
    DockerError(DockerError),
    /// The submitted code did not compile; holds the compiler's text.
    CompileError(String),
    UnknownError,
}

/// The languages supported.
#[derive(Clone, Copy, Debug, PartialEq, Eq, Structural)]
pub enum Language {
    C,
    Python27,
}

/// The file name under which code in language `l` goes into the build
/// context.
pub open spec fn source_name(l: Language) -> Seq<char> {
    if l is C {
        "code.c"@
    } else {
        "code.py"@
    }
}

impl Language {
    /// The file name under which submitted code goes into the build
    /// context.
    pub fn get_file_name(&self) -> (r: &'static str)
        ensures
            r@ == source_name(*self),
    {
        match self {
            Language::C => "code.c",
            Language::Python27 => "code.py",
        }
    }

    /// The path of this language's build recipe.
    pub fn get_docker_file(&self) -> (r: &'static str)
        ensures
            *self is C ==> r@ == "resources/c/Dockerfile"@,
            *self is Python27 ==> r@ == "resources/python2/Dockerfile"@,
    {
        match self {
            Language::C => "resources/c/Dockerfile",
            Language::Python27 => "resources/python2/Dockerfile",
        }
    }
}

/// The tar archive holding `recipe` as `Dockerfile` and `code` under
/// `name`.
pub uninterp spec fn tar_archive_of(recipe: Seq<u8>, name: Seq<char>, code: Seq<char>) -> Seq<u8>;

/// A file name tar encodes directly into an entry header: short, printable
/// ASCII without a path separator, and not a dot name.
pub open spec fn plain_entry_name(name: Seq<char>) -> bool {
    &&& 0 < name.len() < 100
    &&& forall|k: int|
        0 <= k < name.len() ==> (0x20 <= (#[trigger] name[k]) as u32 <= 0x7e && name[k] != '/')
    &&& name != "."@
    &&& name != ".."@
}

/// Relies on tar's `Builder`, `Header::new_gnu` and `append_data`: a gnu
/// archive of exactly two entries, `Dockerfile` holding `recipe` and
/// `name` holding the UTF-8 bytes of `code`. `new_gnu` zeroes every
/// varying header field, so the bytes are a function of the arguments
/// alone; and with the archive written to memory and `name` a plain
/// relative file name, no step of the build can fail.
#[verifier::external_body]
fn pack_archive(recipe: &[u8], name: &str, code: &str) -> (r: Vec<u8>)
    requires
        plain_entry_name(name@),
    ensures
        r@ == tar_archive_of(recipe@, name@, code@),
{
    let mut b = tar::Builder::new(Vec::new());
    let mut h = tar::Header::new_gnu();
    h.set_size(recipe.len() as u64);
    b.append_data(&mut h, "Dockerfile", recipe).expect("writing to memory");
    let mut h2 = tar::Header::new_gnu();
    h2.set_size(code.len() as u64);
    b.append_data(&mut h2, name, code.as_bytes()).expect("writing to memory");
    b.into_inner().expect("writing to memory")
}

/// Both of the languages' source file names are plain entry names.
proof fn lemma_source_name_plain(l: Language)
    ensures
        plain_entry_name(source_name(l)),
{
    reveal_strlit("code.c");
    reveal_strlit("code.py");
    reveal_strlit(".");
    reveal_strlit("..");
    if l is C {
        assert(source_name(l) =~= seq!['c', 'o', 'd', 'e', '.', 'c']);
    } else {
        assert(source_name(l) =~= seq!['c', 'o', 'd', 'e', '.', 'p', 'y']);
    }
}

/// The decoding of a byte sequence by lossy UTF-8, ill-formed sequences
/// replaced.
pub uninterp spec fn utf8_lossy_of(b: Seq<u8>) -> Seq<char>;

/// Relies on `String::from_utf8_lossy`: the decoding depends on the bytes
/// alone; no bytes decode to no text; and ASCII bytes, being valid UTF-8,
/// decode each to its own character.
#[verifier::external_body]
pub(crate) fn bytes_to_string_lossy(b: &Vec<u8>) -> (r: String)
    ensures
        r@ == utf8_lossy_of(b@),
        b@.len() == 0 ==> r@.len() == 0,
        (forall|k: int| 0 <= k < b@.len() ==> b@[k] < 0x80) ==> r@ == b@.map_values(
            |x: u8| x as char,
        ),
{
    String::from_utf8_lossy(b.as_slice()).into_owned()
}

/// Packs the build context for `sub`: the recipe bytes as `Dockerfile`,
/// the submitted code under the language's file name. Packing into memory
/// cannot fail; the `Result` stands ready for a packer with real failure
/// sources behind it.
pub fn build_tar(sub: &Submission, recipe: &Vec<u8>) -> (r: Result<Vec<u8>, ExecutionError>)
    ensures
        r matches Ok(t) && t@ == tar_archive_of(recipe@, source_name(sub.lang), sub.code@),
{
    proof {
        lemma_source_name_plain(sub.lang);
    }
    Ok(pack_archive(recipe.as_slice(), sub.lang.get_file_name(), sub.code.as_str()))
}

// ---------------------------------------------------------------------------
// The container-create configuration, framed as JSON bytes.

/// A nibble as a lower-case hexadecimal digit.
pub open spec fn hex_digit(n: int) -> u8 {
    if n < 10 {
        ('0' as u8 + n) as u8
    } else {
        ('a' as u8 + (n - 10)) as u8
    }
}

/// The JSON escape of one byte of string content.
pub open spec fn esc_byte(b: u8) -> Seq<u8> {
    if b == '"' as u8 {
        seq!['\\' as u8, '"' as u8]
    } else if b == '\\' as u8 {
        seq!['\\' as u8, '\\' as u8]
    } else if b < 0x20 {
        seq!['\\' as u8, 'u' as u8, '0' as u8, '0' as u8, hex_digit((b / 16) as int), hex_digit((b % 16) as int)]
    } else {
        seq![b]
    }
}

/// The JSON escape of string content.
pub open spec fn json_escape(s: Seq<u8>) -> Seq<u8>
    decreases s.len(),
{
    if s.len() == 0 {
        Seq::empty()
    } else {
        esc_byte(s[0]) + json_escape(s.drop_first())
    }
}

proof fn lemma_json_escape_snoc(s: Seq<u8>, b: u8)
    ensures
        json_escape(s.push(b)) == json_escape(s) + esc_byte(b),
    decreases s.len(),
{
    if s.len() == 0 {
        assert(s.push(b)[0] == b);
        assert(s.push(b).drop_first() =~= Seq::<u8>::empty());
        assert(json_escape(s) + esc_byte(b) =~= esc_byte(b) + json_escape(Seq::<u8>::empty()));
    } else {
        assert(s.push(b)[0] == s[0]);
        assert(s.push(b).drop_first() =~= s.drop_first().push(b));
        lemma_json_escape_snoc(s.drop_first(), b);
        assert(esc_byte(s[0]) + (json_escape(s.drop_first()) + esc_byte(b)) =~= (esc_byte(s[0])
            + json_escape(s.drop_first())) + esc_byte(b));
    }
}

/// Escapes `s` as JSON string content.
pub fn json_escape_bytes(s: &Vec<u8>) -> (r: Vec<u8>)
    ensures
        r@ == json_escape(s@),
{
    let mut out: Vec<u8> = Vec::new();
    let mut k: usize = 0;
    assert(s@.subrange(0, 0) =~= Seq::<u8>::empty());
    while k < s.len()
        invariant
            k <= s@.len(),
            out@ == json_escape(s@.subrange(0, k as int)),
        decreases s@.len() - k,
    {
        let b = s[k];
        if b == '"' as u8 {
            out.push('\\' as u8);
            out.push('"' as u8);
        } else if b == '\\' as u8 {
            out.push('\\' as u8);
            out.push('\\' as u8);
        } else if b < 0x20 {
            out.push('\\' as u8);
            out.push('u' as u8);
            out.push('0' as u8);
            out.push('0' as u8);
            out.push('0' as u8 + b / 16);
            let low = b % 16;
            if low < 10 {
                out.push('0' as u8 + low);
            } else {
                out.push('a' as u8 + (low - 10));
            }
        } else {
            out.push(b);
        }
        proof {
            lemma_json_escape_snoc(s@.subrange(0, k as int), s@[k as int]);
            assert(s@.subrange(0, k as int).push(s@[k as int]) =~= s@.subrange(0, k + 1));
            assert(out@ =~= json_escape(s@.subrange(0, k as int)) + esc_byte(s@[k as int]));
        }
        k = k + 1;
    }
    assert(s@.subrange(0, s@.len() as int) =~= s@);
    out
}

pub open spec fn create_body_prefix() -> Seq<u8> {
    "{\"NetworkDisabled\":true,\"Image\":\"".spec_bytes()
}

pub open spec fn create_body_suffix() -> Seq<u8> {
    "\",\"HostConfig\":{\"CpusetCpus\":\"2-3\",\"PidsLimit\":1024,\"Ulimits\":[{\"Name\":\"cpu\",\"Hard\":1,\"Soft\":1}],\"AutoRemove\":true,\"Memory\":1073741824,\"MemorySwap\":1073741824,\"DiskQuota\":10737418240}}".spec_bytes()
}

/// The container-create configuration for the built image `id`: network
/// disabled, a one-second CPU allowance, memory and disk quotas, and
/// removal of the container once it exits.
pub open spec fn create_body_of(id: Seq<u8>) -> Seq<u8> {
    create_body_prefix() + json_escape(id) + create_body_suffix()
}

/// Frames the container-create configuration for the image `id`.
pub fn create_body(image_id: &Vec<u8>) -> (r: Vec<u8>)
    ensures
        r@ == create_body_of(image_id@),
{
    let mut out: Vec<u8> = Vec::new();
    append_bytes(&mut out, "{\"NetworkDisabled\":true,\"Image\":\"".as_bytes());
    let esc = json_escape_bytes(image_id);
    append_bytes(&mut out, esc.as_slice());
    append_bytes(
        &mut out,
        "\",\"HostConfig\":{\"CpusetCpus\":\"2-3\",\"PidsLimit\":1024,\"Ulimits\":[{\"Name\":\"cpu\",\"Hard\":1,\"Soft\":1}],\"AutoRemove\":true,\"Memory\":1073741824,\"MemorySwap\":1073741824,\"DiskQuota\":10737418240}}".as_bytes(),
    );
    out
}

// ---------------------------------------------------------------------------
// The executor.

/// Drives one submission through the engine. Owns the engine client;
/// its methods are the decisions of the pipeline, in stage order.
pub struct Executor {
    pub docker: Docker,
}

impl Executor {
    /// A new executor over a fresh engine client.
    pub fn new() -> (r: Executor) {
        Executor { docker: Docker::new() }
    }

    /// The build request for a packed context: `POST /v1.30/build?q=true`
    /// with the tar bytes as body.
    pub fn build_image_request(&self, tar: Vec<u8>) -> (r: RequestSpec)
        ensures
            r.method == Method::Post,
            r.path@ == build_path() + seq!['?' as u8] + query_of(
                seq![("q".spec_bytes(), "true".spec_bytes())],
            ),
            r.headers@.len() == 0,
            r.body@ == tar@,
    {
        let b = ImageBuilder::new().with_param("q", "true").with_body(tar);
        let ghost ps = b.params@;
        let req = match b.build() {
            Ok(req) => req,
            Err(e) => {
                // the builder promises success
                proof {
                    assert(false);
                }
                RequestSpec {
                    method: Method::Post,
                    path: Vec::new(),
                    headers: Vec::new(),
                    body: Vec::new(),
                }
            },
        };
        proof {
            assert(params_view(ps) =~= seq![("q".spec_bytes(), "true".spec_bytes())]);
        }
        req
    }

    /// What a build response status decides: only 200 opens the record
    /// stream.
    pub fn on_build_status(&self, status: u16) -> (r: Result<(), ExecutionError>)
        ensures
            status == 200 ==> r == Result::<(), ExecutionError>::Ok(()),
            status == 400 ==> r == Result::<(), ExecutionError>::Err(
                ExecutionError::DockerError(DockerError::BadRequest),
            ),
            status != 200 && status != 400 ==> r == Result::<(), ExecutionError>::Err(
                ExecutionError::DockerError(DockerError::InternalServerError),
            ),
    {
        match crate::client::build_response_status(status) {
            Ok(u) => Ok(u),
            Err(e) => Err(ExecutionError::DockerError(e)),
        }
    }

    /// Feeds one chunk of the build stream to the decoder and folds every
    /// record it completes into the extraction state.
    pub fn absorb_build_chunk(&self, dec: &mut BuildMessages, st: Transform, chunk: &[u8]) -> (r:
        Result<Transform, ExecutionError>)
        requires
            !old(dec).failed,
        ensures
            ({
                let b = old(dec).buf@ + chunk@;
                let run = drain(record_parser(), b, 0);
                &&& (!run.failed ==> (r matches Ok(t2) && t2@ == fold_model(st@, run.events)
                    && final(dec).buf@ == b.subrange(run.end, b.len() as int) && !final(
                    dec).failed))
                &&& (run.failed ==> r == Result::<Transform, ExecutionError>::Err(
                    ExecutionError::DockerError(DockerError::HyperError),
                ))
            }),
    {
        proof {
            lemma_record_parser_good();
        }
        let ghost p = record_parser();
        let ghost b = old(dec).buf@ + chunk@;
        let ghost run = drain(p, b, 0);
        let ghost st0 = st@;
        dec.push_chunk(chunk);
        let mut cur = st;
        proof {
            assert(b.subrange(run.end, b.len() as int) =~= dec.buf@.subrange(
                drain(p, dec.buf@, 0).end,
                dec.buf@.len() as int,
            ));
        }
        #[verifier::loop_isolation(false)]
        loop
            invariant
                !dec.failed,
                ({
                    let now = drain(p, dec.buf@, 0);
                    &&& run.failed == now.failed
                    &&& (!now.failed ==> fold_model(st0, run.events) == fold_model(
                        cur@,
                        now.events,
                    ))
                    &&& b.subrange(run.end, b.len() as int) == dec.buf@.subrange(
                        now.end,
                        dec.buf@.len() as int,
                    )
                }),
            decreases dec.buf@.len(),
        {
            proof {
                lemma_record_parser_good();
            }
            let ghost buf0 = dec.buf@;
            let ghost now0 = drain(p, buf0, 0);
            match dec.next_message() {
                Ok(Some(m)) => {
                    proof {
                        let j = sp_end(buf0);
                        assert(p(buf0, 0) == crate::image::sp_record(buf0, 0));
                        assert(p(buf0, 0) == crate::bytesutil::Parsed::<
                            crate::image::MessageModel,
                        >::Found(m@, j));
                        use_progress(p, buf0, 0, m@, j);
                        let left = buf0.subrange(j, buf0.len() as int);
                        lemma_drain_shift(p, buf0.subrange(0, j), left, 0);
                        assert(buf0.subrange(0, j) + left =~= buf0);
                        let nowl = drain(p, left, 0);
                        assert(drain(p, buf0, j) == (crate::stream::DrainOut {
                            events: nowl.events,
                            end: nowl.end + j,
                            failed: nowl.failed,
                        }));
                        assert(now0.events == seq![m@] + nowl.events);
                        assert(fold_model(cur@, now0.events) == fold_model(
                            crate::extract::step_model(cur@, m@),
                            nowl.events,
                        )) by {
                            assert(now0.events[0] == m@);
                            assert(now0.events.drop_first() =~= nowl.events);
                        }
                        crate::stream::lemma_drain_bounds(p, left, 0);
                        assert(buf0.subrange(now0.end, buf0.len() as int) =~= left.subrange(
                            nowl.end,
                            left.len() as int,
                        ));
                    }
                    cur = step_transform(cur, &m);
                },
                Ok(None) => {
                    proof {
                        assert(p(dec.buf@, 0) == crate::image::sp_record(dec.buf@, 0));
                        assert(p(dec.buf@, 0) is Needs);
                        assert(drain(p, dec.buf@, 0) == (crate::stream::DrainOut::<
                            crate::image::MessageModel,
                        > {
                            events: Seq::empty(),
                            end: 0,
                            failed: false,
                        }));
                        assert(fold_model(cur@, Seq::<crate::image::MessageModel>::empty())
                            == cur@);
                        assert(dec.buf@.subrange(0, dec.buf@.len() as int) =~= dec.buf@);
                    }
                    return Ok(cur);
                },
                Err(e) => {
                    proof {
                        assert(p(buf0, 0) == crate::image::sp_record(buf0, 0));
                        assert(now0.failed);
                    }
                    return Err(ExecutionError::DockerError(DockerError::HyperError));
                },
            }
        }
    }

    /// What the build stream amounts to once it ends: the image id, the
    /// compile error, or — when the stream ended mid-record or carried no
    /// conclusion — a failure.
    pub fn finish_build(&self, dec: &BuildMessages, st: Transform) -> (r: Result<
        Vec<u8>,
        ExecutionError,
    >)
        ensures
            (dec.failed || sp_ws(dec.buf@, 0) != dec.buf@.len()) ==> r == Result::<
                Vec<u8>,
                ExecutionError,
            >::Err(ExecutionError::DockerError(DockerError::HyperError)),
            (!dec.failed && sp_ws(dec.buf@, 0) == dec.buf@.len()) ==> (match st@ {
                TransformModel::Id(id) => r matches Ok(v) && v@ == id,
                TransformModel::Error(t) => r matches Err(e) && e matches
                    ExecutionError::CompileError(msg) && msg@ == utf8_lossy_of(t),
                TransformModel::Empty => r == Result::<Vec<u8>, ExecutionError>::Err(
                    ExecutionError::UnknownError,
                ),
            }),
    {
        match dec.finish() {
            Err(e) => Err(ExecutionError::DockerError(DockerError::HyperError)),
            Ok(u) => match st {
                Transform::Id(id) => Ok(id),
                Transform::Error(t) => Err(
                    ExecutionError::CompileError(bytes_to_string_lossy(&t)),
                ),
                Transform::Empty => Err(ExecutionError::UnknownError),
            },
        }
    }

    /// The create request for the built image `id`: the configuration as
    /// JSON, marked as such.
    pub fn create_container_request(&self, image_id: &Vec<u8>) -> (r: RequestSpec)
        ensures
            r.method == Method::Post,
            r.path@ == create_path(),
            r.body@ == create_body_of(image_id@),
            r.headers@.len() == 1,
            r.headers@[0].0@ == "Content-Type".spec_bytes(),
            r.headers@[0].1@ == "application/json".spec_bytes(),
    {
        let body = create_body(image_id);
        let b = ContainerBuilder::new().with_body(body).with_header(
            "Content-Type",
            "application/json",
        );
        match b.build() {
            Ok(req) => req,
            Err(e) => {
                // the builder promises success
                proof {
                    assert(false);
                }
                RequestSpec {
                    method: Method::Post,
                    path: Vec::new(),
                    headers: Vec::new(),
                    body: Vec::new(),
                }
            },
        }
    }

    /// What the create response decides: the container id on success; any
    /// engine refusal ends the run unexplained, as the pipeline has no
    /// better account to give.
    pub fn on_create_response(&self, status: u16, body: &Vec<u8>) -> (r: Result<
        Vec<u8>,
        ExecutionError,
    >)
        ensures
            ({
                match doc_members(body@) {
                    Option::None => r == Result::<Vec<u8>, ExecutionError>::Err(
                        ExecutionError::UnknownError,
                    ),
                    Option::Some(ms) => {
                        &&& (status == 201 ==> (match first_val(ms, key_id()) {
                            Option::Some(JVal::Str(id)) => r matches Ok(v) && v@ == id,
                            _ => r == Result::<Vec<u8>, ExecutionError>::Err(
                                ExecutionError::UnknownError,
                            ),
                        }))
                        &&& (status != 201 ==> r == Result::<Vec<u8>, ExecutionError>::Err(
                            ExecutionError::UnknownError,
                        ))
                    },
                }
            }),
    {
        match create_response(status, body) {
            Ok(id) => Ok(id),
            Err(e) => Err(ExecutionError::UnknownError),
        }
    }

    /// What a start response decides: only that the run may go on.
    pub fn on_start_status(&self, status: u16) -> (r: Result<(), ExecutionError>)
        ensures
            status == 204 || status == 304 ==> r == Result::<(), ExecutionError>::Ok(()),
            status != 204 && status != 304 ==> r == Result::<(), ExecutionError>::Err(
                ExecutionError::UnknownError,
            ),
    {
        match crate::client::start_response_status(status) {
            Ok(u) => Ok(u),
            Err(e) => Err(ExecutionError::UnknownError),
        }
    }

    /// What an attach-logs response decides: only that the frames follow.
    pub fn on_logs_status(&self, status: u16) -> (r: Result<(), ExecutionError>)
        ensures
            status == 200 || status == 101 ==> r == Result::<(), ExecutionError>::Ok(()),
            status != 200 && status != 101 ==> r == Result::<(), ExecutionError>::Err(
                ExecutionError::UnknownError,
            ),
    {
        match crate::client::logs_response_status(status) {
            Ok(u) => Ok(u),
            Err(e) => Err(ExecutionError::UnknownError),
        }
    }

    /// Feeds one chunk of the log stream to the decoder and sorts every
    /// frame it completes into the stdout and stderr gatherers; stdin
    /// frames are discarded.
    pub fn absorb_log_chunk(
        &self,
        logs: &mut Logs,
        stdout: &mut Vec<u8>,
        stderr: &mut Vec<u8>,
        chunk: &[u8],
    ) -> (r: Result<(), ExecutionError>)
        requires
            !old(logs).failed,
        ensures
            ({
                let b = old(logs).buf@ + chunk@;
                let run = drain(frame_parser(), b, 0);
                &&& (!run.failed ==> r is Ok && (final(stdout)@, final(stderr)@) == out_fold(
                    old(stdout)@,
                    old(stderr)@,
                    run.events,
                ) && final(logs).buf@ == b.subrange(run.end, b.len() as int) && !final(logs).failed)
                &&& (run.failed ==> r == Result::<(), ExecutionError>::Err(
                    ExecutionError::UnknownError,
                ))
            }),
    {
        proof {
            lemma_frame_parser_good();
        }
        let ghost p = frame_parser();
        let ghost b = old(logs).buf@ + chunk@;
        let ghost run = drain(p, b, 0);
        let ghost so0 = stdout@;
        let ghost se0 = stderr@;
        logs.push_chunk(chunk);
        proof {
            assert(b.subrange(run.end, b.len() as int) =~= logs.buf@.subrange(
                drain(p, logs.buf@, 0).end,
                logs.buf@.len() as int,
            ));
        }
        #[verifier::loop_isolation(false)]
        loop
            invariant
                !logs.failed,
                ({
                    let now = drain(p, logs.buf@, 0);
                    &&& run.failed == now.failed
                    &&& (!now.failed ==> out_fold(so0, se0, run.events) == out_fold(
                        stdout@,
                        stderr@,
                        now.events,
                    ))
                    &&& b.subrange(run.end, b.len() as int) == logs.buf@.subrange(
                        now.end,
                        logs.buf@.len() as int,
                    )
                }),
            decreases logs.buf@.len(),
        {
            proof {
                lemma_frame_parser_good();
            }
            let ghost buf0 = logs.buf@;
            let ghost now0 = drain(p, buf0, 0);
            match logs.next_message() {
                Ok(Some(m)) => {
                    proof {
                        let j = frame_end(buf0);
                        assert(p(buf0, 0) == crate::log::parse_frame(buf0, 0));
                        assert(p(buf0, 0) == crate::bytesutil::Parsed::<(u8, Seq<u8>)>::Found(
                            m@,
                            j,
                        ));
                        use_progress(p, buf0, 0, m@, j);
                        let left = buf0.subrange(j, buf0.len() as int);
                        lemma_drain_shift(p, buf0.subrange(0, j), left, 0);
                        assert(buf0.subrange(0, j) + left =~= buf0);
                        let nowl = drain(p, left, 0);
                        assert(drain(p, buf0, j) == (crate::stream::DrainOut {
                            events: nowl.events,
                            end: nowl.end + j,
                            failed: nowl.failed,
                        }));
                        assert(now0.events == seq![m@] + nowl.events);
                        assert(out_fold(stdout@, stderr@, now0.events) == out_fold(
                            out_step(stdout@, m@),
                            err_step(stderr@, m@),
                            nowl.events,
                        )) by {
                            assert(now0.events[0] == m@);
                            assert(now0.events.drop_first() =~= nowl.events);
                        }
                        crate::stream::lemma_drain_bounds(p, left, 0);
                        assert(buf0.subrange(now0.end, buf0.len() as int) =~= left.subrange(
                            nowl.end,
                            left.len() as int,
                        ));
                    }
                    match m {
                        crate::log::Message::Stdout(payload) => {
                            append_bytes(stdout, payload.as_slice());
                        },
                        crate::log::Message::Stderr(payload) => {
                            append_bytes(stderr, payload.as_slice());
                        },
                        crate::log::Message::Stdin(payload) => {
                        },
                    }
                },
                Ok(None) => {
                    proof {
                        assert(p(logs.buf@, 0) == crate::log::parse_frame(logs.buf@, 0));
                        assert(p(logs.buf@, 0) is Needs);
                        assert(drain(p, logs.buf@, 0) == (crate::stream::DrainOut::<
                            (u8, Seq<u8>),
                        > {
                            events: Seq::empty(),
                            end: 0,
                            failed: false,
                        }));
                        assert(logs.buf@.subrange(0, logs.buf@.len() as int) =~= logs.buf@);
                    }
                    return Ok(());
                },
                Err(e) => {
                    proof {
                        assert(p(buf0, 0) == crate::log::parse_frame(buf0, 0));
                        assert(now0.failed);
                    }
                    return Err(ExecutionError::UnknownError);
                },
            }
        }
    }

    /// The gathered output once the log stream ends cleanly.
    pub fn finish_logs(&self, logs: &Logs, stdout: Vec<u8>, stderr: Vec<u8>) -> (r: Result<
        Output,
        ExecutionError,
    >)
        ensures
            (logs.failed || logs.buf@.len() != 0) ==> r == Result::<Output, ExecutionError>::Err(
                ExecutionError::UnknownError,
            ),
            (!logs.failed && logs.buf@.len() == 0) ==> (r matches Ok(o) && o matches
                Output::Output { stdout: so, stderr: se } && so@ == utf8_lossy_of(stdout@) && se@
                == utf8_lossy_of(stderr@)),
    {
        match logs.finish() {
            Err(e) => Err(ExecutionError::UnknownError),
            Ok(u) => Ok(
                Output::Output {
                    stdout: bytes_to_string_lossy(&stdout),
                    stderr: bytes_to_string_lossy(&stderr),
                },
            ),
        }
    }

    /// Terminal mapping: a compile error is not a failure at the boundary,
    /// it becomes the run's output; every other outcome passes unchanged.
    pub fn settle(&self, result: Result<Output, ExecutionError>) -> (r: Result<
        Output,
        ExecutionError,
    >)
        ensures
            result matches Ok(o) ==> (r matches Ok(o2) && o2 == o),
            result matches Err(e) ==> (e matches ExecutionError::CompileError(t) ==> (r matches
            Ok(o) && o matches Output::CompileError { error } && error == t)),
            result matches Err(e) ==> (!(e is CompileError) ==> (r matches Err(e2) && e2 == e)),
    {
        match result {
            Ok(o) => Ok(o),
            Err(ExecutionError::CompileError(t)) => Ok(Output::CompileError { error: t }),
            Err(e) => Err(e),
        }
    }
}

/// The end position of the record or frame a drain step consumed.
pub open spec fn sp_end(s: Seq<u8>) -> int {
    match crate::image::sp_record(s, 0) {
        crate::bytesutil::Parsed::Found(m, j) => j,
        _ => 0,
    }
}

/// The end position of the frame a drain step consumed.
pub open spec fn frame_end(s: Seq<u8>) -> int {
    match crate::log::parse_frame(s, 0) {
        crate::bytesutil::Parsed::Found(f, j) => j,
        _ => 0,
    }
}

/// One log frame sorted into the stdout gatherer.
pub open spec fn out_step(so: Seq<u8>, f: (u8, Seq<u8>)) -> Seq<u8> {
    if f.0 == 1 {
        so + f.1
    } else {
        so
    }
}

/// One log frame sorted into the stderr gatherer.
pub open spec fn err_step(se: Seq<u8>, f: (u8, Seq<u8>)) -> Seq<u8> {
    if f.0 == 2 {
        se + f.1
    } else {
        se
    }
}

/// Log frames folded into the two gatherers: stdout and stderr payloads
/// appended in arrival order, stdin frames discarded.
pub open spec fn out_fold(so: Seq<u8>, se: Seq<u8>, evs: Seq<(u8, Seq<u8>)>) -> (Seq<u8>, Seq<u8>)
    decreases evs.len(),
{
    if evs.len() == 0 {
        (so, se)
    } else {
        out_fold(out_step(so, evs[0]), err_step(se, evs[0]), evs.drop_first())
    }
}

} // verus!
