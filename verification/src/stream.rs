//! Model of an incremental decoder over a byte stream.
//!
//! Both decoders of this crate (the log-frame decoder and the build-progress
//! decoder) work the same way: bytes arrive in arbitrary chunks, are
//! buffered, and a parser repeatedly splits complete items off the front of
//! the buffer. This module gives that loop a single specification: `drain`
//! runs a one-item parser to exhaustion over a byte sequence, and the lemmas
//! below show that for any well-behaved parser the items produced do not
//! depend on how the input was cut into chunks.

use vstd::prelude::*;
use crate::bytesutil::Parsed;

verus! {

/// Everything `drain` produced from one byte sequence: the parsed items, the
/// position up to which the input was consumed, and whether the input was
/// found to be malformed.
pub ghost struct DrainOut<T> {
    pub events: Seq<T>,
    pub end: int,
    pub failed: bool,
}

/// State of a decoder that has consumed some chunks: the items it has
/// emitted, the bytes it still buffers, and whether it has failed.
pub ghost struct DecodeState<T> {
    pub emitted: Seq<T>,
    pub buf: Seq<u8>,
    pub failed: bool,
}

/// Runs `p` repeatedly from position `i`, collecting items until the input
/// runs short (`Needs`) or is malformed (`Bad`).
pub open spec fn drain<T>(p: spec_fn(Seq<u8>, int) -> Parsed<T>, s: Seq<u8>, i: int) -> DrainOut<T>
    decreases s.len() - i,
{
    match p(s, i) {
        Parsed::Found(v, j) => {
            if i < j <= s.len() {
                let rest = drain(p, s, j);
                DrainOut { events: seq![v] + rest.events, end: rest.end, failed: rest.failed }
            } else {
                DrainOut { events: seq![v], end: j, failed: false }
            }
        },
        Parsed::Needs => DrainOut { events: Seq::empty(), end: i, failed: false },
        Parsed::Bad => DrainOut { events: Seq::empty(), end: i, failed: true },
    }
}

/// The conditions under which chunking cannot be observed through `p`:
/// a parse that did not run short keeps its result when bytes are appended;
/// a parsed item consumes at least one byte and stays within the input;
/// at the end of the input the parser always runs short; and results do not
/// depend on the bytes before the start position.
pub open spec fn good_parser<T>(p: spec_fn(Seq<u8>, int) -> Parsed<T>) -> bool {
    &&& forall|s: Seq<u8>, e: Seq<u8>, i: int|
        #![trigger p(s + e, i)]
        0 <= i <= s.len() && !(p(s, i) is Needs) ==> p(s + e, i) == p(s, i)
    &&& forall|s: Seq<u8>, i: int|
        #![trigger p(s, i)]
        0 <= i ==> (p(s, i) matches Parsed::Found(v, j) ==> i < j <= s.len())
    &&& forall|s: Seq<u8>, i: int| #![trigger p(s, i)] i >= s.len() ==> p(s, i) is Needs
    &&& forall|a: Seq<u8>, s: Seq<u8>, i: int|
        #![trigger p(a + s, a.len() + i)]
        0 <= i ==> p(a + s, a.len() + i) == shift_parsed(p(s, i), a.len() as int)
}

/// `r` with its consumed-up-to position moved right by `d`.
pub open spec fn shift_parsed<T>(r: Parsed<T>, d: int) -> Parsed<T> {
    match r {
        Parsed::Found(v, j) => Parsed::Found(v, j + d),
        Parsed::Needs => Parsed::Needs,
        Parsed::Bad => Parsed::Bad,
    }
}

pub proof fn use_stable<T>(p: spec_fn(Seq<u8>, int) -> Parsed<T>, s: Seq<u8>, e: Seq<u8>, i: int)
    requires
        good_parser(p),
        0 <= i <= s.len(),
        !(p(s, i) is Needs),
    ensures
        p(s + e, i) == p(s, i),
{
}

pub proof fn use_progress<T>(p: spec_fn(Seq<u8>, int) -> Parsed<T>, s: Seq<u8>, i: int, v: T, j: int)
    requires
        good_parser(p),
        0 <= i,
        p(s, i) == Parsed::<T>::Found(v, j),
    ensures
        i < j <= s.len(),
{
}

pub proof fn use_shift<T>(p: spec_fn(Seq<u8>, int) -> Parsed<T>, a: Seq<u8>, s: Seq<u8>, i: int)
    requires
        good_parser(p),
        0 <= i,
    ensures
        p(a + s, a.len() + i) == shift_parsed(p(s, i), a.len() as int),
{
}

/// `drain` consumes a region of the input: its end never moves left of the
/// start, nor past the end of the input.
pub proof fn lemma_drain_bounds<T>(p: spec_fn(Seq<u8>, int) -> Parsed<T>, s: Seq<u8>, i: int)
    requires
        good_parser(p),
        0 <= i <= s.len(),
    ensures
        i <= drain(p, s, i).end <= s.len(),
    decreases s.len() - i,
{
    match p(s, i) {
        Parsed::Found(v, j) => {
            use_progress(p, s, i, v, j);
            lemma_drain_bounds(p, s, j);
        },
        _ => {},
    }
}

/// After `drain`, the parser cannot make progress at the stopping point:
/// it reports `Needs` there, or `Bad` when the drain failed.
pub proof fn lemma_drain_stops<T>(p: spec_fn(Seq<u8>, int) -> Parsed<T>, s: Seq<u8>, i: int)
    requires
        good_parser(p),
        0 <= i <= s.len(),
    ensures
        p(s, drain(p, s, i).end) == (if drain(p, s, i).failed {
            Parsed::<T>::Bad
        } else {
            Parsed::<T>::Needs
        }),
    decreases s.len() - i,
{
    match p(s, i) {
        Parsed::Found(v, j) => {
            use_progress(p, s, i, v, j);
            lemma_drain_stops(p, s, j);
        },
        _ => {},
    }
}

/// Appending bytes only extends what `drain` produces: the items found in
/// `s` are still found, in the same order, and draining continues from the
/// old stopping point into the new bytes.
pub proof fn lemma_drain_extend<T>(p: spec_fn(Seq<u8>, int) -> Parsed<T>, s: Seq<u8>, e: Seq<u8>, i: int)
    requires
        good_parser(p),
        0 <= i <= s.len(),
    ensures
        ({
            let r = drain(p, s, i);
            let rx = drain(p, s + e, i);
            if r.failed {
                rx == DrainOut { events: r.events, end: r.end, failed: true }
            } else {
                let cont = drain(p, s + e, r.end);
                rx == DrainOut {
                    events: r.events + cont.events,
                    end: cont.end,
                    failed: cont.failed,
                }
            }
        }),
    decreases s.len() - i,
{
    let r = drain(p, s, i);
    let rx = drain(p, s + e, i);
    match p(s, i) {
        Parsed::Found(v, j) => {
            use_progress(p, s, i, v, j);
            use_stable(p, s, e, i);
            lemma_drain_extend(p, s, e, j);
            lemma_drain_bounds(p, s, j);
            if !r.failed {
                let rj = drain(p, s, j);
                let cont = drain(p, s + e, rj.end);
                assert(rx.events =~= r.events + cont.events);
            } else {
                assert(rx.events =~= r.events);
            }
        },
        Parsed::Needs => {
            assert(r.events =~= Seq::<T>::empty());
            let cont = drain(p, s + e, i);
            assert(rx.events =~= r.events + cont.events);
        },
        Parsed::Bad => {
            use_stable(p, s, e, i);
            assert(rx.events =~= r.events);
        },
    }
}

/// Draining a suffix is draining the whole input from the cut, shifted.
pub proof fn lemma_drain_shift<T>(p: spec_fn(Seq<u8>, int) -> Parsed<T>, a: Seq<u8>, s: Seq<u8>, i: int)
    requires
        good_parser(p),
        0 <= i <= s.len(),
    ensures
        ({
            let r = drain(p, s, i);
            drain(p, a + s, a.len() + i) == DrainOut {
                events: r.events,
                end: r.end + a.len(),
                failed: r.failed,
            }
        }),
    decreases s.len() - i,
{
    use_shift(p, a, s, i);
    let r = drain(p, s, i);
    let rx = drain(p, a + s, a.len() + i);
    match p(s, i) {
        Parsed::Found(v, j) => {
            use_progress(p, s, i, v, j);
            lemma_drain_shift(p, a, s, j);
            assert(rx.events =~= r.events);
        },
        Parsed::Needs => {
            assert(rx.events =~= r.events);
        },
        Parsed::Bad => {
            assert(rx.events =~= r.events);
        },
    }
}

/// One chunk arriving at a decoder in state `st`: the chunk joins the
/// buffer, every now-complete item is emitted, and the consumed bytes are
/// dropped from the buffer. A failed decoder emits nothing more.
pub open spec fn feed<T>(p: spec_fn(Seq<u8>, int) -> Parsed<T>, st: DecodeState<T>, chunk: Seq<u8>) -> DecodeState<T> {
    let b = st.buf + chunk;
    let r = drain(p, b, 0);
    DecodeState {
        emitted: if st.failed {
            st.emitted
        } else {
            st.emitted + r.events
        },
        buf: b.subrange(r.end, b.len() as int),
        failed: st.failed || r.failed,
    }
}

/// A decoder that has seen nothing.
pub open spec fn start_state<T>() -> DecodeState<T> {
    DecodeState { emitted: Seq::empty(), buf: Seq::empty(), failed: false }
}

/// `st` after the chunks of `chunks` arrive one by one.
pub open spec fn run_from<T>(p: spec_fn(Seq<u8>, int) -> Parsed<T>, st: DecodeState<T>, chunks: Seq<Seq<u8>>) -> DecodeState<T>
    decreases chunks.len(),
{
    if chunks.len() == 0 {
        st
    } else {
        run_from(p, feed(p, st, chunks[0]), chunks.drop_first())
    }
}

/// A decoder state between chunks: whatever is buffered cannot be parsed
/// further (and starts with malformed bytes exactly when the decoder
/// failed).
pub open spec fn quiescent<T>(p: spec_fn(Seq<u8>, int) -> Parsed<T>, st: DecodeState<T>) -> bool {
    if st.failed {
        p(st.buf, 0) == Parsed::<T>::Bad
    } else {
        p(st.buf, 0) == Parsed::<T>::Needs
    }
}

/// Feeding chunks one at a time is the same as draining their
/// concatenation in one go: the decoder's output is a function of the bytes
/// alone, not of the chunk boundaries.
pub proof fn lemma_run_from<T>(p: spec_fn(Seq<u8>, int) -> Parsed<T>, st: DecodeState<T>, chunks: Seq<Seq<u8>>)
    requires
        good_parser(p),
        quiescent(p, st),
    ensures
        ({
            let flat = st.buf + chunks.flatten();
            let r = drain(p, flat, 0);
            run_from(p, st, chunks) == (if st.failed {
                DecodeState { emitted: st.emitted, buf: flat, failed: true }
            } else {
                DecodeState {
                    emitted: st.emitted + r.events,
                    buf: flat.subrange(r.end, flat.len() as int),
                    failed: r.failed,
                }
            })
        }),
    decreases chunks.len(),
{
    let flat = st.buf + chunks.flatten();
    let r = drain(p, flat, 0);
    if chunks.len() == 0 {
        assert(chunks.flatten() =~= Seq::<u8>::empty());
        assert(flat =~= st.buf);
        if st.failed {
            assert(run_from(p, st, chunks) == st);
            assert(st.buf =~= flat);
        } else {
            assert(r == DrainOut::<T> { events: Seq::empty(), end: 0, failed: false });
            assert(st.emitted + r.events =~= st.emitted);
            assert(flat.subrange(0, flat.len() as int) =~= st.buf);
        }
    } else {
        let c0 = chunks[0];
        let rest = chunks.drop_first();
        let st1 = feed(p, st, c0);
        let b = st.buf + c0;
        let r0 = drain(p, b, 0);
        lemma_drain_bounds(p, b, 0);
        lemma_drain_stops(p, b, 0);
        // the leftover after the first feed is itself quiescent
        let left = b.subrange(r0.end, b.len() as int);
        use_shift(p, b.subrange(0, r0.end), left, 0);
        assert(b.subrange(0, r0.end) + left =~= b);
        assert(p(b, r0.end) == shift_parsed(p(left, 0), r0.end));
        if st.failed {
            // the buffer starts with malformed bytes, so nothing is consumed
            use_stable(p, st.buf, c0, 0);
            assert(p(b, 0) == Parsed::<T>::Bad);
            assert(r0.end == 0 && r0.failed);
            assert(st1.buf =~= b);
            assert(st1 == DecodeState { emitted: st.emitted, buf: b, failed: true });
            assert(quiescent(p, st1));
            lemma_run_from(p, st1, rest);
            assert(b + rest.flatten() =~= st.buf + chunks.flatten());
        } else {
            assert(quiescent(p, st1)) by {
                if r0.failed {
                    assert(p(b, r0.end) == Parsed::<T>::Bad);
                } else {
                    assert(p(b, r0.end) == Parsed::<T>::Needs);
                }
            }
            lemma_run_from(p, st1, rest);
            let flat1 = st1.buf + rest.flatten();
            let r1 = drain(p, flat1, 0);
            // relate the drain of the whole input to the two partial drains
            lemma_drain_extend(p, b, rest.flatten(), 0);
            assert(b + rest.flatten() =~= flat);
            if r0.failed {
                assert(r == DrainOut { events: r0.events, end: r0.end, failed: true });
                assert(st1.failed);
                assert(run_from(p, st, chunks) == DecodeState {
                    emitted: st1.emitted,
                    buf: flat1,
                    failed: true,
                });
                assert(st1.emitted =~= st.emitted + r.events);
                assert(flat1 =~= flat.subrange(r.end, flat.len() as int));
            } else {
                let cont = drain(p, flat, r0.end);
                assert(r == DrainOut {
                    events: r0.events + cont.events,
                    end: cont.end,
                    failed: cont.failed,
                });
                // the continuation is the drain of the leftover plus the rest
                lemma_drain_shift(p, b.subrange(0, r0.end), flat1, 0);
                lemma_drain_bounds(p, flat1, 0);
                assert(b.subrange(0, r0.end) + flat1 =~= flat);
                assert(cont == DrainOut {
                    events: r1.events,
                    end: r1.end + r0.end,
                    failed: r1.failed,
                });
                assert(st.emitted + r.events =~= (st.emitted + r0.events) + r1.events);
                assert(flat1.subrange(r1.end, flat1.len() as int) =~= flat.subrange(
                    r.end,
                    flat.len() as int,
                ));
            }
        }
    }
}

} // verus!
