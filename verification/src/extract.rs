//! Extraction of the build result from the build-progress records.
//!
//! The engine's build stream is not structured for this: the image id and
//! any compile error must be read out of the textual step lines. The
//! extractor folds over the records: a `sha256:...` line pins the image id;
//! a new `Step` line discards error text gathered so far; cache-hint lines
//! (`--->`) are ignored; every other line is error text, gathered newest
//! first.

use vstd::prelude::*;
use crate::bytesutil::sub_vec;
use crate::image::{Message, MessageModel};

verus! {

/// `p` occurs in `s` at position `k`.
pub open spec fn occurs_at(s: Seq<u8>, p: Seq<u8>, k: int) -> bool {
    0 <= k <= s.len() - p.len() && s.subrange(k, k + p.len() as int) == p
}

/// `p` occurs somewhere in `s`.
pub open spec fn occurs(s: Seq<u8>, p: Seq<u8>) -> bool {
    exists|k: int| occurs_at(s, p, k)
}

/// `s` begins with `p`.
pub open spec fn begins_with(s: Seq<u8>, p: Seq<u8>) -> bool {
    s.len() >= p.len() && s.subrange(0, p.len() as int) == p
}

pub open spec fn sha_prefix() -> Seq<u8> {
    seq!['s' as u8, 'h' as u8, 'a' as u8, '2' as u8, '5' as u8, '6' as u8]
}

pub open spec fn step_word() -> Seq<u8> {
    seq!['S' as u8, 't' as u8, 'e' as u8, 'p' as u8]
}

pub open spec fn cache_word() -> Seq<u8> {
    seq!['-' as u8, '-' as u8, '-' as u8]
}

/// First position at or after `i` holding a colon, or the length.
pub open spec fn find_colon(s: Seq<u8>, i: int) -> int
    decreases s.len() - i,
{
    if 0 <= i < s.len() {
        if s[i] == ':' as u8 {
            i
        } else {
            find_colon(s, i + 1)
        }
    } else {
        i
    }
}

/// ASCII whitespace, as trimmed from the end of an id line.
pub open spec fn is_trim_ws(b: u8) -> bool {
    b == 0x20 || b == 0x09 || b == 0x0a || b == 0x0b || b == 0x0c || b == 0x0d
}

/// `s` without its trailing whitespace.
pub open spec fn trim_end(s: Seq<u8>) -> Seq<u8>
    decreases s.len(),
{
    if s.len() > 0 && is_trim_ws(s[s.len() - 1]) {
        trim_end(s.drop_last())
    } else {
        s
    }
}

/// The image id carried by a `sha256...` line: what follows the first
/// colon, trimmed of trailing whitespace; empty when no colon occurs.
pub open spec fn hash_of(s: Seq<u8>) -> Seq<u8> {
    let c = find_colon(s, 0);
    if c < s.len() {
        trim_end(s.subrange(c + 1, s.len() as int))
    } else {
        Seq::empty()
    }
}

/// Intermediate state while extracting the image id from build records.
#[derive(Debug)]
pub enum Transform {
    /// The extracted id.
    Id(Vec<u8>),
    /// Error text gathered so far, newest line first.
    Error(Vec<u8>),
    /// Nothing gathered yet.
    Empty,
}

/// Mathematical form of the extraction state.
pub ghost enum TransformModel {
    Id(Seq<u8>),
    Error(Seq<u8>),
    Empty,
}

impl View for Transform {
    type V = TransformModel;

    open spec fn view(&self) -> TransformModel {
        match self {
            Transform::Id(v) => TransformModel::Id(v@),
            Transform::Error(v) => TransformModel::Error(v@),
            Transform::Empty => TransformModel::Empty,
        }
    }
}

/// One step of the extraction fold.
pub open spec fn step_model(st: TransformModel, ev: MessageModel) -> TransformModel {
    match ev {
        MessageModel::Stream { stream } => {
            if begins_with(stream, sha_prefix()) {
                TransformModel::Id(hash_of(stream))
            } else if occurs(stream, step_word()) {
                match st {
                    TransformModel::Id(m) => TransformModel::Id(m),
                    _ => TransformModel::Empty,
                }
            } else if occurs(stream, cache_word()) {
                st
            } else {
                match st {
                    TransformModel::Id(m) => TransformModel::Id(m),
                    TransformModel::Empty => TransformModel::Error(stream),
                    TransformModel::Error(m) => TransformModel::Error(stream + m),
                }
            }
        },
        MessageModel::ErrorDetail { code, message, error } => st,
    }
}

/// The extraction fold over a whole record sequence.
pub open spec fn fold_model(st: TransformModel, evs: Seq<MessageModel>) -> TransformModel
    decreases evs.len(),
{
    if evs.len() == 0 {
        st
    } else {
        fold_model(step_model(st, evs[0]), evs.drop_first())
    }
}

// ---------------------------------------------------------------------------
// Executable side.

/// `v` holds `p` at position `k`.
fn occurs_at_exec(v: &Vec<u8>, p: &Vec<u8>, k: usize) -> (r: bool)
    requires
        k + p@.len() <= v@.len(),
        v@.len() <= usize::MAX,
    ensures
        r == occurs_at(v@, p@, k as int),
{
    let mut m: usize = 0;
    while m < p.len()
        invariant
            m <= p@.len(),
            k + p@.len() <= v@.len(),
            v@.len() <= usize::MAX,
            forall|t: int| 0 <= t < m ==> v@[k + t] == p@[t],
        decreases p@.len() - m,
    {
        if v[k + m] != p[m] {
            assert(v@.subrange(k as int, k + p@.len() as int)[m as int] != p@[m as int]);
            return false;
        }
        m = m + 1;
    }
    assert(v@.subrange(k as int, k + p@.len() as int) =~= p@);
    true
}

/// Whether `p` occurs anywhere in `v`.
fn occurs_exec(v: &Vec<u8>, p: &Vec<u8>) -> (r: bool)
    ensures
        r == occurs(v@, p@),
{
    if p.len() > v.len() {
        assert(forall|k: int| !occurs_at(v@, p@, k));
        return false;
    }
    if p.len() == 0 {
        assert(v@.subrange(0, 0) =~= p@);
        assert(occurs_at(v@, p@, 0));
        return true;
    }
    let last = v.len() - p.len();
    let mut k: usize = 0;
    while k <= last
        invariant
            k <= last + 1,
            last == v@.len() - p@.len(),
            0 < p@.len() <= v@.len(),
            v@.len() <= usize::MAX,
            forall|t: int| 0 <= t < k ==> !occurs_at(v@, p@, t),
        decreases last + 1 - k,
    {
        if occurs_at_exec(v, p, k) {
            assert(occurs(v@, p@));
            return true;
        }
        k = k + 1;
    }
    assert(forall|t: int| !occurs_at(v@, p@, t));
    false
}

/// `v` begins with `p`.
fn begins_with_exec(v: &Vec<u8>, p: &Vec<u8>) -> (r: bool)
    ensures
        r == begins_with(v@, p@),
{
    if p.len() > v.len() {
        return false;
    }
    let r = occurs_at_exec(v, p, 0);
    assert(occurs_at(v@, p@, 0) == begins_with(v@, p@));
    r
}

fn sha_prefix_vec() -> (r: Vec<u8>)
    ensures
        r@ == sha_prefix(),
{
    let mut v: Vec<u8> = Vec::new();
    v.push('s' as u8);
    v.push('h' as u8);
    v.push('a' as u8);
    v.push('2' as u8);
    v.push('5' as u8);
    v.push('6' as u8);
    assert(v@ =~= sha_prefix());
    v
}

fn step_word_vec() -> (r: Vec<u8>)
    ensures
        r@ == step_word(),
{
    let mut v: Vec<u8> = Vec::new();
    v.push('S' as u8);
    v.push('t' as u8);
    v.push('e' as u8);
    v.push('p' as u8);
    assert(v@ =~= step_word());
    v
}

fn cache_word_vec() -> (r: Vec<u8>)
    ensures
        r@ == cache_word(),
{
    let mut v: Vec<u8> = Vec::new();
    v.push('-' as u8);
    v.push('-' as u8);
    v.push('-' as u8);
    assert(v@ =~= cache_word());
    v
}

/// The image id carried by a `sha256...` line.
fn hash_of_exec(v: &Vec<u8>) -> (r: Vec<u8>)
    ensures
        r@ == hash_of(v@),
{
    let mut fc: usize = 0;
    while fc < v.len() && v[fc] != ':' as u8
        invariant
            fc <= v@.len(),
            find_colon(v@, 0) == find_colon(v@, fc as int),
        decreases v@.len() - fc,
    {
        assert(find_colon(v@, fc as int) == find_colon(v@, fc + 1 as int));
        fc = fc + 1;
    }
    assert(find_colon(v@, fc as int) == fc);
    if fc == v.len() {
        let out: Vec<u8> = Vec::new();
        return out;
    }
    let body = sub_vec(v, fc + 1, v.len());
    let mut e: usize = body.len();
    assert(body@.subrange(0, body@.len() as int) =~= body@);
    while e > 0 && (body[e - 1] == 0x20 || body[e - 1] == 0x09 || body[e - 1] == 0x0a || body[e - 1]
        == 0x0b || body[e - 1] == 0x0c || body[e - 1] == 0x0d)
        invariant
            e <= body@.len(),
            trim_end(body@) == trim_end(body@.subrange(0, e as int)),
        decreases e,
    {
        assert(body@.subrange(0, e as int).drop_last() =~= body@.subrange(0, e - 1 as int));
        e = e - 1;
    }
    proof {
        if e > 0 {
            assert(!is_trim_ws(body@.subrange(0, e as int)[e - 1]));
        }
        assert(trim_end(body@.subrange(0, e as int)) == body@.subrange(0, e as int));
    }
    sub_vec(&body, 0, e)
}

/// One step of the extraction fold, §4.5's table made executable.
pub fn step_transform(st: Transform, msg: &Message) -> (r: Transform)
    ensures
        r@ == step_model(st@, msg@),
{
    match msg {
        Message::Stream { stream } => {
            let sha = sha_prefix_vec();
            if begins_with_exec(stream, &sha) {
                return Transform::Id(hash_of_exec(stream));
            }
            let step = step_word_vec();
            if occurs_exec(stream, &step) {
                return match st {
                    Transform::Id(m) => Transform::Id(m),
                    _ => Transform::Empty,
                };
            }
            let cache = cache_word_vec();
            if occurs_exec(stream, &cache) {
                return st;
            }
            match st {
                Transform::Id(m) => Transform::Id(m),
                Transform::Empty => {
                    let mut own: Vec<u8> = Vec::new();
                    let mut src = stream.clone();
                    own.append(&mut src);
                    assert(own@ =~= msg@->Stream_stream);
                    Transform::Error(own)
                },
                Transform::Error(m) => {
                    let mut own = stream.clone();
                    let mut tail = m;
                    own.append(&mut tail);
                    Transform::Error(own)
                },
            }
        },
        Message::ErrorDetail { error_detail, error } => st,
    }
}

// ---------------------------------------------------------------------------
// Laws of the extractor.

/// The extraction state is a function of the record sequence alone: runs
/// over equal sequences end equal. Each run of the executable fold yields
/// `fold_model` of its inputs' views, so no two runs can differ.
pub proof fn lemma_extractor_deterministic(st: TransformModel, evs1: Seq<MessageModel>, evs2: Seq<MessageModel>)
    requires
        evs1 == evs2,
    ensures
        fold_model(st, evs1) == fold_model(st, evs2),
{
}

/// `ev` pins the image id: a step line whose text begins with `sha256`.
pub open spec fn is_sha(ev: MessageModel) -> bool {
    ev matches MessageModel::Stream { stream } && begins_with(stream, sha_prefix())
}

/// Once the state holds an id, no later record changes it, as long as no
/// later line begins with `sha256` (a second such line would pin a new
/// id).
pub proof fn lemma_extractor_id_monotonic(idv: Seq<u8>, evs: Seq<MessageModel>)
    requires
        forall|k: int| 0 <= k < evs.len() ==> !is_sha(#[trigger] evs[k]),
    ensures
        fold_model(TransformModel::Id(idv), evs) == TransformModel::Id(idv),
    decreases evs.len(),
{
    if evs.len() > 0 {
        assert(!is_sha(evs[0]));
        assert(step_model(TransformModel::Id(idv), evs[0]) == TransformModel::Id(idv));
        assert(forall|k: int|
            0 <= k < evs.drop_first().len() ==> !is_sha(#[trigger] evs.drop_first()[k]));
        lemma_extractor_id_monotonic(idv, evs.drop_first());
    }
}

/// A step line that resets gathered error text.
pub open spec fn is_reset(ev: MessageModel) -> bool {
    ev matches MessageModel::Stream { stream } && !begins_with(stream, sha_prefix()) && occurs(
        stream,
        step_word(),
    )
}

/// A plain line: error text.
pub open spec fn is_plain(ev: MessageModel) -> bool {
    ev matches MessageModel::Stream { stream } && !begins_with(stream, sha_prefix()) && !occurs(
        stream,
        step_word(),
    ) && !occurs(stream, cache_word())
}

/// Index just past the last reset line, 0 if there is none.
pub open spec fn after_last_reset(evs: Seq<MessageModel>) -> int
    decreases evs.len(),
{
    if evs.len() == 0 {
        0
    } else if is_reset(evs.last()) {
        evs.len() as int
    } else {
        after_last_reset(evs.drop_last())
    }
}

pub open spec fn has_plain(evs: Seq<MessageModel>) -> bool {
    exists|k: int| 0 <= k < evs.len() && is_plain(#[trigger] evs[k])
}

/// The plain lines of `evs` concatenated newest first.
pub open spec fn rev_text(evs: Seq<MessageModel>) -> Seq<u8>
    decreases evs.len(),
{
    if evs.len() == 0 {
        Seq::empty()
    } else if is_plain(evs.last()) {
        evs.last()->Stream_stream + rev_text(evs.drop_last())
    } else {
        rev_text(evs.drop_last())
    }
}

proof fn lemma_after_last_reset_bounds(evs: Seq<MessageModel>)
    ensures
        0 <= after_last_reset(evs) <= evs.len(),
    decreases evs.len(),
{
    if evs.len() > 0 && !is_reset(evs.last()) {
        lemma_after_last_reset_bounds(evs.drop_last());
    }
}

/// Compile-error preservation: on a build stream that never pins an image
/// id, the fold ends in error text exactly when a plain line follows the
/// last step line, and that text is those plain lines concatenated newest
/// first; with no such line the fold ends empty.
pub proof fn lemma_compile_error_text(evs: Seq<MessageModel>)
    requires
        forall|k: int| 0 <= k < evs.len() ==> !is_sha(#[trigger] evs[k]),
    ensures
        ({
            let tail = evs.subrange(after_last_reset(evs), evs.len() as int);
            if has_plain(tail) {
                fold_model(TransformModel::Empty, evs) == TransformModel::Error(rev_text(tail))
            } else {
                fold_model(TransformModel::Empty, evs) == TransformModel::Empty
            }
        }),
    decreases evs.len(),
{
    lemma_after_last_reset_bounds(evs);
    if evs.len() == 0 {
        assert(!has_plain(evs.subrange(0, 0)));
    } else {
        let front = evs.drop_last();
        let e = evs.last();
        assert(forall|k: int| 0 <= k < front.len() ==> !is_sha(#[trigger] front[k]));
        lemma_compile_error_text(evs.drop_last());
        lemma_after_last_reset_bounds(front);
        lemma_fold_snoc(TransformModel::Empty, front, e);
        assert(front.push(e) =~= evs);
        assert(fold_model(TransformModel::Empty, evs) == step_model(
            fold_model(TransformModel::Empty, front),
            e,
        ));
        let tailf = front.subrange(after_last_reset(front), front.len() as int);
        let tail = evs.subrange(after_last_reset(evs), evs.len() as int);
        assert(!is_sha(e));
        if is_reset(e) {
            assert(after_last_reset(evs) == evs.len());
            assert(tail =~= Seq::<MessageModel>::empty());
            assert(!has_plain(tail));
            // the fold can never hold an id on a sha-free stream
            assert(step_model(fold_model(TransformModel::Empty, front), e)
                == TransformModel::Empty) by {
                lemma_no_id(front);
            }
        } else {
            assert(after_last_reset(evs) == after_last_reset(front));
            assert(tail =~= tailf.push(e));
            assert(tail.drop_last() =~= tailf);
            assert(tail.last() == e);
            if is_plain(e) {
                let stream = e->Stream_stream;
                assert(rev_text(tail) == stream + rev_text(tailf));
                assert(has_plain(tail)) by {
                    assert(tail[tail.len() - 1] == e && is_plain(e));
                }
                if has_plain(tailf) {
                    assert(fold_model(TransformModel::Empty, front) == TransformModel::Error(
                        rev_text(tailf),
                    ));
                    assert(step_model(TransformModel::Error(rev_text(tailf)), e)
                        == TransformModel::Error(stream + rev_text(tailf)));
                } else {
                    assert(fold_model(TransformModel::Empty, front) == TransformModel::Empty);
                    assert(step_model(TransformModel::Empty, e) == TransformModel::Error(stream));
                    assert(rev_text(tailf) =~= Seq::<u8>::empty()) by {
                        lemma_rev_text_empty(tailf);
                    }
                    assert(stream + rev_text(tailf) =~= stream);
                }
            } else {
                // a cache hint or an error-detail record changes nothing
                assert(step_model(fold_model(TransformModel::Empty, front), e) == fold_model(
                    TransformModel::Empty,
                    front,
                ));
                assert(rev_text(tail) == rev_text(tailf));
                assert(has_plain(tail) == has_plain(tailf)) by {
                    if has_plain(tailf) {
                        let k = choose|k: int|
                            0 <= k < tailf.len() && is_plain(#[trigger] tailf[k]);
                        assert(tail[k] == tailf[k]);
                    }
                    if has_plain(tail) {
                        let k = choose|k: int| 0 <= k < tail.len() && is_plain(#[trigger] tail[k]);
                        assert(k < tailf.len() ==> tailf[k] == tail[k]);
                    }
                }
            }
        }
    }
}

/// Without a `sha256` line the fold never holds an id.
proof fn lemma_no_id(evs: Seq<MessageModel>)
    requires
        forall|k: int| 0 <= k < evs.len() ==> !is_sha(#[trigger] evs[k]),
    ensures
        !(fold_model(TransformModel::Empty, evs) is Id),
    decreases evs.len(),
{
    if evs.len() > 0 {
        let front = evs.drop_last();
        assert(forall|k: int| 0 <= k < front.len() ==> !is_sha(#[trigger] front[k]));
        lemma_no_id(front);
        lemma_fold_snoc(TransformModel::Empty, front, evs.last());
        assert(front.push(evs.last()) =~= evs);
        assert(fold_model(TransformModel::Empty, evs) == step_model(
            fold_model(TransformModel::Empty, front),
            evs.last(),
        ));
        assert(!is_sha(evs.last()));
    }
}

/// No plain line, no text.
proof fn lemma_rev_text_empty(evs: Seq<MessageModel>)
    requires
        !has_plain(evs),
    ensures
        rev_text(evs) == Seq::<u8>::empty(),
    decreases evs.len(),
{
    if evs.len() > 0 {
        let front = evs.drop_last();
        assert(evs[evs.len() - 1] == evs.last());
        assert(!is_plain(evs.last())) by {
            if is_plain(evs[evs.len() - 1]) {
                assert(has_plain(evs));
            }
        }
        assert(!has_plain(front)) by {
            if has_plain(front) {
                let k = choose|k: int| 0 <= k < front.len() && is_plain(#[trigger] front[k]);
                assert(evs[k] == front[k]);
            }
        }
        lemma_rev_text_empty(front);
    }
}

/// Folding one more record steps the fold of the rest.
proof fn lemma_fold_snoc(st: TransformModel, evs: Seq<MessageModel>, e: MessageModel)
    ensures
        fold_model(st, evs.push(e)) == step_model(fold_model(st, evs), e),
    decreases evs.len(),
{
    if evs.len() == 0 {
        assert(evs.push(e)[0] == e);
        assert(evs.push(e).drop_first() =~= Seq::<MessageModel>::empty());
        assert(fold_model(st, evs.push(e)) == fold_model(step_model(st, e), Seq::empty()));
        assert(fold_model(st, evs) == st);
    } else {
        let st1 = step_model(st, evs[0]);
        assert(evs.push(e)[0] == evs[0]);
        assert(evs.push(e).drop_first() =~= evs.drop_first().push(e));
        assert(fold_model(st, evs.push(e)) == fold_model(st1, evs.drop_first().push(e)));
        lemma_fold_snoc(st1, evs.drop_first(), e);
        assert(fold_model(st, evs) == fold_model(st1, evs.drop_first()));
    }
}

} // verus!
