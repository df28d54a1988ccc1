//! Streaming HTML injector.
//!
//! [`Injector`] consumes a byte stream in arbitrary chunk boundaries and
//! emits the same bytes with the script block spliced in immediately after
//! the closing `>` of the first `<head ...>` opening tag. Bytes that may
//! belong to a still-unconfirmed tag are buffered, never dropped: when the
//! stream ends mid-tag, [`Injector::end`] flushes them unchanged and no
//! injection takes place. The emitted output is a function of the
//! concatenation of the chunks alone, so how the caller splits the input has
//! no effect on it.

use crate::scan::{
    complete_head_tag, head_match_at, head_pattern, injected_output, injects, is_name_byte,
    lemma_injected_output_at, lemma_live_push, lemma_match_extend, lemma_not_open_dead,
    lemma_pattern_interior, live,
};
use vstd::prelude::*;
use vstd::slice::slice_to_vec;

verus! {

/// The scanner's parse cursor.
#[derive(Clone, Copy)]
enum Phase {
    /// Looking for the start of a `head` element; the buffer holds the
    /// longest input suffix that is a prefix of `<head`.
    Scanning,
    /// A `<head` token has been recognized; the buffer holds the whole tag
    /// seen so far while the scanner waits for the closing `>`.
    HeadOpening,
    /// The script block has been emitted; every further byte passes through.
    Passthrough,
    /// The input is exhausted and every buffered byte has been flushed.
    Finished,
}

/// Incremental scanner/mutator over one response body.
pub struct Injector {
    /// The script block to splice in.
    script: Vec<u8>,
    /// Bytes consumed but not yet emitted: the span of the unresolved tag.
    buf: Vec<u8>,
    /// The scanner's state.
    phase: Phase,
    /// All input bytes consumed so far.
    seen: Ghost<Seq<u8>>,
    /// All output bytes emitted so far.
    sent: Ghost<Seq<u8>>,
    /// After injection: where the first `head` tag starts.
    mark: Ghost<int>,
    /// After injection: where its closing `>` stands.
    close: Ghost<int>,
}

impl Injector {
    /// The input consumed so far, over all calls to `feed`.
    pub closed spec fn consumed(self) -> Seq<u8> {
        self.seen@
    }

    /// The output emitted so far, over all calls to `feed` and `end`.
    pub closed spec fn emitted(self) -> Seq<u8> {
        self.sent@
    }

    /// The script block this injector splices in.
    pub closed spec fn script_bytes(self) -> Seq<u8> {
        self.script@
    }

    /// True until `end` is called.
    pub closed spec fn running(self) -> bool {
        !(self.phase is Finished)
    }

    /// The scanner's invariant, tying the buffered bytes and the emitted
    /// bytes to the consumed input.
    pub closed spec fn wf(self) -> bool {
        let c = self.seen@;
        let e = self.sent@;
        let m = self.buf@.len() as int;
        match self.phase {
            Phase::Scanning => {
                &&& m <= 5
                &&& self.buf@ == head_pattern().take(m)
                &&& e + self.buf@ == c
                &&& forall|i: int| 0 <= i < c.len() - m ==> !live(c, i)
            },
            Phase::HeadOpening => {
                let i = c.len() - m;
                &&& m >= 6
                &&& e + self.buf@ == c
                &&& head_match_at(c, i)
                &&& forall|k: int| i + 5 <= k < c.len() ==> c[k] != 62
                &&& forall|i2: int| 0 <= i2 < i ==> !live(c, i2)
            },
            Phase::Passthrough => {
                &&& m == 0
                &&& complete_head_tag(c, self.mark@, self.close@)
                &&& e == c.subrange(0, self.close@ + 1) + self.script@ + c.subrange(
                    self.close@ + 1,
                    c.len() as int,
                )
            },
            Phase::Finished => {
                &&& m == 0
                &&& e == injected_output(c, self.script@)
            },
        }
    }

    /// Creates an injector that will splice `script` in.
    pub fn new(script: Vec<u8>) -> (r: Injector)
        ensures
            r.wf(),
            r.running(),
            r.consumed() == Seq::<u8>::empty(),
            r.emitted() == Seq::<u8>::empty(),
            r.script_bytes() == script@,
    {
        let r = Injector {
            script,
            buf: Vec::new(),
            phase: Phase::Scanning,
            seen: Ghost(Seq::empty()),
            sent: Ghost(Seq::empty()),
            mark: Ghost(0),
            close: Ghost(0),
        };
        proof {
            assert(r.buf@ =~= head_pattern().take(0));
            assert(r.sent@ + r.buf@ =~= r.seen@);
        }
        r
    }

    /// Consumes one byte and appends whatever becomes emittable to `out`.
    fn step(&mut self, b: u8, out: &mut Vec<u8>)
        requires
            old(self).wf(),
            old(self).running(),
        ensures
            final(self).wf(),
            final(self).running(),
            final(self).consumed() == old(self).consumed().push(b),
            final(self).script_bytes() == old(self).script_bytes(),
            old(self).emitted().is_prefix_of(final(self).emitted()),
            final(out)@ == old(out)@ + final(self).emitted().skip(
                old(self).emitted().len() as int,
            ),
    {
        let ghost c1 = self.seen@;
        let ghost c2 = self.seen@.push(b);
        let ghost e1 = self.sent@;
        let ghost o0 = out@;
        let ghost bufv = self.buf@;
        self.seen = Ghost(c2);
        let ph = self.phase;
        match ph {
            Phase::Scanning => {
                let m = self.buf.len();
                let ghost mi = m as int;
                if m < 5 {
                    let expected: u8 = if m == 0 {
                        60
                    } else if m == 1 {
                        104
                    } else if m == 2 {
                        101
                    } else if m == 3 {
                        97
                    } else {
                        100
                    };
                    proof {
                        assert(expected == head_pattern()[mi]);
                    }
                    if b == expected {
                        // The byte extends the buffered pattern prefix.
                        self.buf.push(b);
                        proof {
                            assert(self.buf@ =~= head_pattern().take(mi + 1));
                            assert(e1 + self.buf@ =~= c2);
                            assert forall|i: int| 0 <= i < c2.len() - (mi + 1) implies !live(
                                c2,
                                i,
                            ) by {
                                if live(c2, i) {
                                    lemma_live_push(c1, b, i);
                                }
                            }
                            lemma_delta(e1, Seq::<u8>::empty());
                            assert(out@ =~= o0 + Seq::<u8>::empty());
                        }
                    } else {
                        proof {
                            lemma_scanning_dead(bufv, e1, c1, c2, b, mi);
                        }
                        if b == 60 {
                            // A new candidate starts at the incoming byte.
                            emit_all(out, &self.buf);
                            self.buf.clear();
                            self.buf.push(b);
                            self.sent = Ghost(e1 + bufv);
                            proof {
                                assert(self.buf@ =~= head_pattern().take(1));
                                assert(self.sent@ + self.buf@ =~= c2);
                                lemma_delta(e1, bufv);
                                assert(out@ =~= o0 + bufv);
                            }
                        } else {
                            // No tag can start in the flushed span.
                            emit_all(out, &self.buf);
                            out.push(b);
                            self.buf.clear();
                            self.sent = Ghost(e1 + (bufv + seq![b]));
                            proof {
                                assert(self.buf@ =~= head_pattern().take(0));
                                assert(self.sent@ + self.buf@ =~= c2);
                                lemma_not_open_dead(c2, c2.len() - 1);
                                assert forall|i: int| 0 <= i < c2.len() implies !live(c2, i) by {
                                    if i < c2.len() - 1 {
                                        assert(!live(c2, i));
                                    }
                                }
                                lemma_delta(e1, bufv + seq![b]);
                                assert(out@ =~= o0 + (bufv + seq![b]));
                            }
                        }
                    }
                } else {
                    // The whole `<head` pattern is buffered; `b` decides
                    // whether it opens a `head` element.
                    let ghost i = c1.len() - 5;
                    proof {
                        assert forall|k: int| i <= k < c1.len() && k < i + 5 implies c1[k]
                            == head_pattern()[k - i] by {
                            assert(c1[k] == bufv[k - i]);
                        }
                        assert(head_match_at(c1, i));
                    }
                    if byte_is_name(b) {
                        // A longer tag name, such as `<header`: no match.
                        proof {
                            lemma_scanning_dead(bufv, e1, c1, c2, b, 5);
                        }
                        emit_all(out, &self.buf);
                        out.push(b);
                        self.buf.clear();
                        self.sent = Ghost(e1 + (bufv + seq![b]));
                        proof {
                            assert(self.buf@ =~= head_pattern().take(0));
                            assert(self.sent@ + self.buf@ =~= c2);
                            lemma_not_open_dead(c2, c2.len() - 1);
                            assert forall|p: int| 0 <= p < c2.len() implies !live(c2, p) by {
                                if p < c2.len() - 1 {
                                    assert(!live(c2, p));
                                }
                            }
                            lemma_delta(e1, bufv + seq![b]);
                            assert(out@ =~= o0 + (bufv + seq![b]));
                        }
                    } else if b == 62 {
                        // `<head>`: the tag closes at once; inject.
                        emit_all(out, &self.buf);
                        out.push(b);
                        emit_all(out, &self.script);
                        self.buf.clear();
                        self.phase = Phase::Passthrough;
                        self.mark = Ghost(i);
                        self.close = Ghost(c1.len() as int);
                        self.sent = Ghost(e1 + (bufv + seq![b] + self.script@));
                        proof {
                            lemma_match_extend(c1, b, i);
                            assert forall|i2: int| 0 <= i2 < i implies !head_match_at(c2, i2) by {
                                if live(c2, i2) {
                                    lemma_live_push(c1, b, i2);
                                }
                            }
                            assert(complete_head_tag(c2, i, c1.len() as int));
                            assert(c2.subrange(0, c1.len() as int + 1) =~= c2);
                            assert(c2.subrange(c1.len() as int + 1, c2.len() as int) =~= Seq::<
                                u8,
                            >::empty());
                            assert(self.sent@ =~= c2.subrange(0, c1.len() as int + 1) + self.script@
                                + c2.subrange(c1.len() as int + 1, c2.len() as int));
                            lemma_delta(e1, bufv + seq![b] + self.script@);
                            assert(out@ =~= o0 + (bufv + seq![b] + self.script@));
                        }
                    } else {
                        // `<head` then, say, a space: consume the attributes
                        // until the closing `>`.
                        self.buf.push(b);
                        self.phase = Phase::HeadOpening;
                        proof {
                            lemma_match_extend(c1, b, i);
                            assert(e1 + self.buf@ =~= c2);
                            assert forall|k: int| i + 5 <= k < c2.len() implies c2[k] != 62 by {
                                assert(k == c1.len());
                                assert(c2[k] == b);
                            }
                            assert forall|i2: int| 0 <= i2 < i implies !live(c2, i2) by {
                                if live(c2, i2) {
                                    lemma_live_push(c1, b, i2);
                                }
                            }
                            lemma_delta(e1, Seq::<u8>::empty());
                            assert(out@ =~= o0 + Seq::<u8>::empty());
                        }
                    }
                }
            },
            Phase::HeadOpening => {
                let ghost m = bufv.len() as int;
                let ghost i = c1.len() - m;
                if b == 62 {
                    // The tag's closing `>`: flush it, then the script block.
                    emit_all(out, &self.buf);
                    out.push(b);
                    emit_all(out, &self.script);
                    self.buf.clear();
                    self.phase = Phase::Passthrough;
                    self.mark = Ghost(i);
                    self.close = Ghost(c1.len() as int);
                    self.sent = Ghost(e1 + (bufv + seq![b] + self.script@));
                    proof {
                        lemma_match_extend(c1, b, i);
                        assert forall|k: int| i + 5 <= k < c1.len() implies c2[k] != 62 by {
                            assert(c2[k] == c1[k]);
                        }
                        assert forall|i2: int| 0 <= i2 < i implies !head_match_at(c2, i2) by {
                            if live(c2, i2) {
                                lemma_live_push(c1, b, i2);
                            }
                        }
                        assert(complete_head_tag(c2, i, c1.len() as int));
                        assert(c2.subrange(0, c1.len() as int + 1) =~= c2);
                        assert(c2.subrange(c1.len() as int + 1, c2.len() as int) =~= Seq::<u8>::empty());
                        assert(self.sent@ =~= c2.subrange(0, c1.len() as int + 1) + self.script@
                            + c2.subrange(c1.len() as int + 1, c2.len() as int));
                        lemma_delta(e1, bufv + seq![b] + self.script@);
                        assert(out@ =~= o0 + (bufv + seq![b] + self.script@));
                    }
                } else {
                    // Still inside the tag: keep buffering.
                    self.buf.push(b);
                    proof {
                        assert(e1 + self.buf@ =~= c2);
                        lemma_match_extend(c1, b, i);
                        assert forall|k: int| i + 5 <= k < c2.len() implies c2[k] != 62 by {
                            if k < c1.len() {
                                assert(c2[k] == c1[k]);
                            } else {
                                assert(c2[k] == b);
                            }
                        }
                        assert forall|i2: int| 0 <= i2 < i implies !live(c2, i2) by {
                            if live(c2, i2) {
                                lemma_live_push(c1, b, i2);
                            }
                        }
                        lemma_delta(e1, Seq::<u8>::empty());
                        assert(out@ =~= o0 + Seq::<u8>::empty());
                    }
                }
            },
            Phase::Passthrough => {
                out.push(b);
                self.sent = Ghost(e1 + seq![b]);
                proof {
                    let j = self.close@;
                    lemma_match_extend(c1, b, self.mark@);
                    assert forall|i2: int| 0 <= i2 < self.mark@ implies !head_match_at(c2, i2) by {
                        if live(c2, i2) {
                            lemma_live_push(c1, b, i2);
                            assert(head_match_at(c1, i2));
                        }
                    }
                    assert(complete_head_tag(c2, self.mark@, j));
                    assert(c2.subrange(0, j + 1) =~= c1.subrange(0, j + 1));
                    assert(c2.subrange(j + 1, c2.len() as int) =~= c1.subrange(
                        j + 1,
                        c1.len() as int,
                    ).push(b));
                    assert(self.sent@ =~= c2.subrange(0, j + 1) + self.script@ + c2.subrange(
                        j + 1,
                        c2.len() as int,
                    ));
                    lemma_delta(e1, seq![b]);
                    assert(out@ =~= o0 + seq![b]);
                }
            },
            Phase::Finished => {
                proof {
                    assert(false);
                }
            },
        }
    }

    /// Consumes one chunk of the input stream, in order, and appends the
    /// emittable output bytes to `out`. Chunk boundaries carry no meaning:
    /// only the concatenation of everything fed matters.
    pub fn feed(&mut self, chunk: &[u8], out: &mut Vec<u8>)
        requires
            old(self).wf(),
            old(self).running(),
        ensures
            final(self).wf(),
            final(self).running(),
            final(self).consumed() == old(self).consumed() + chunk@,
            final(self).script_bytes() == old(self).script_bytes(),
            old(self).emitted().is_prefix_of(final(self).emitted()),
            final(out)@ == old(out)@ + final(self).emitted().skip(
                old(self).emitted().len() as int,
            ),
    {
        let ghost c0 = self.consumed();
        let ghost e0 = self.emitted();
        let ghost s0 = self.script_bytes();
        let ghost o0 = out@;
        let n = chunk.len();
        let mut idx: usize = 0;
        proof {
            assert(c0 + chunk@.take(0) =~= c0);
            lemma_delta(e0, Seq::<u8>::empty());
            assert(out@ =~= o0 + self.emitted().skip(e0.len() as int));
        }
        while idx < n
            invariant
                self.wf(),
                self.running(),
                n == chunk@.len(),
                idx <= n,
                self.consumed() == c0 + chunk@.take(idx as int),
                self.script_bytes() == s0,
                e0.is_prefix_of(self.emitted()),
                out@ == o0 + self.emitted().skip(e0.len() as int),
            decreases n - idx,
        {
            let ghost e_mid = self.emitted();
            let b = chunk[idx];
            self.step(b, out);
            proof {
                assert((c0 + chunk@.take(idx as int)).push(b) =~= c0 + chunk@.take(idx as int + 1));
                lemma_prefix_chain(e0, e_mid, self.emitted());
                assert(out@ =~= o0 + self.emitted().skip(e0.len() as int));
            }
            idx = idx + 1;
        }
        proof {
            assert(chunk@.take(n as int) =~= chunk@);
        }
    }

    /// Marks the input as exhausted: flushes any bytes still buffered for a
    /// partially parsed tag, so no input byte is ever dropped. After this the
    /// emitted output as a whole equals [`injected_output`] of the consumed
    /// input, whatever chunk boundaries `feed` saw.
    pub fn end(&mut self, out: &mut Vec<u8>)
        requires
            old(self).wf(),
            old(self).running(),
        ensures
            final(self).wf(),
            !final(self).running(),
            final(self).consumed() == old(self).consumed(),
            final(self).script_bytes() == old(self).script_bytes(),
            old(self).emitted().is_prefix_of(final(self).emitted()),
            final(out)@ == old(out)@ + final(self).emitted().skip(
                old(self).emitted().len() as int,
            ),
            final(self).emitted() == injected_output(
                final(self).consumed(),
                final(self).script_bytes(),
            ),
    {
        let ghost c = self.seen@;
        let ghost e1 = self.sent@;
        let ghost o0 = out@;
        let ghost bufv = self.buf@;
        let ph = self.phase;
        match ph {
            Phase::Scanning => {
                let ghost m = bufv.len() as int;
                proof {
                    assert forall|i: int, j: int| !complete_head_tag(c, i, j) by {
                        if complete_head_tag(c, i, j) {
                            assert(live(c, i));
                            assert(i + 5 <= c.len());
                            if i < c.len() - m {
                                assert(!live(c, i));
                            }
                        }
                    }
                    assert(!injects(c));
                }
                emit_all(out, &self.buf);
                self.buf.clear();
                self.phase = Phase::Finished;
                self.sent = Ghost(e1 + bufv);
                proof {
                    assert(self.sent@ =~= c);
                    lemma_delta(e1, bufv);
                    assert(out@ =~= o0 + bufv);
                }
            },
            Phase::HeadOpening => {
                let ghost m = bufv.len() as int;
                let ghost i = c.len() - m;
                proof {
                    assert forall|i2: int, j2: int| !complete_head_tag(c, i2, j2) by {
                        if complete_head_tag(c, i2, j2) {
                            if i2 < i {
                                assert(live(c, i2));
                                assert(!live(c, i2));
                            } else if i2 == i {
                                assert(c[j2] == 62);
                                assert(c[j2] != 62);
                            } else {
                                assert(!head_match_at(c, i));
                            }
                        }
                    }
                    assert(!injects(c));
                }
                emit_all(out, &self.buf);
                self.buf.clear();
                self.phase = Phase::Finished;
                self.sent = Ghost(e1 + bufv);
                proof {
                    assert(self.sent@ =~= c);
                    lemma_delta(e1, bufv);
                    assert(out@ =~= o0 + bufv);
                }
            },
            Phase::Passthrough => {
                self.phase = Phase::Finished;
                proof {
                    lemma_injected_output_at(c, self.script@, self.mark@, self.close@);
                    lemma_delta(e1, Seq::<u8>::empty());
                    assert(out@ =~= o0 + Seq::<u8>::empty());
                }
            },
            Phase::Finished => {
                proof {
                    assert(false);
                }
            },
        }
    }
}

/// True of bytes that may continue a tag name.
fn byte_is_name(b: u8) -> (r: bool)
    ensures
        r == is_name_byte(b),
{
    (48 <= b && b <= 57) || (65 <= b && b <= 90) || (97 <= b && b <= 122) || b == 45
}

/// Appends all bytes of `src` to `out`.
fn emit_all(out: &mut Vec<u8>, src: &Vec<u8>)
    ensures
        final(out)@ == old(out)@ + src@,
{
    let ghost o0 = out@;
    let n = src.len();
    let mut i: usize = 0;
    proof {
        assert(out@ =~= o0 + src@.take(0));
    }
    while i < n
        invariant
            n == src@.len(),
            i <= n,
            out@ == o0 + src@.take(i as int),
        decreases n - i,
    {
        out.push(src[i]);
        proof {
            assert(src@.take(i as int).push(src@[i as int]) =~= src@.take(i as int + 1));
            assert(out@ =~= o0 + src@.take(i as int + 1));
        }
        i = i + 1;
    }
    proof {
        assert(src@.take(n as int) =~= src@);
    }
}

/// The standard shape of one emission: appending `d` to the already emitted
/// `e` adds `d` after the prefix `e`.
proof fn lemma_delta(e: Seq<u8>, d: Seq<u8>)
    ensures
        e.is_prefix_of(e + d),
        (e + d).skip(e.len() as int) == d,
        e + Seq::<u8>::empty() == e,
{
    assert(e =~= (e + d).subrange(0, e.len() as int));
    assert((e + d).skip(e.len() as int) =~= d);
    assert(e + Seq::<u8>::empty() =~= e);
}

/// In the scanning phase, once the incoming byte has refuted the buffered
/// candidate, every position of the grown input before the new byte is
/// refuted.
proof fn lemma_scanning_dead(bufv: Seq<u8>, e: Seq<u8>, c1: Seq<u8>, c2: Seq<u8>, b: u8, m: int)
    requires
        0 <= m <= 5,
        bufv.len() == m,
        bufv == head_pattern().take(m),
        e + bufv == c1,
        forall|i: int| 0 <= i < c1.len() - m ==> !live(c1, i),
        c2 == c1.push(b),
        m < 5 ==> b != head_pattern()[m],
        m == 5 ==> is_name_byte(b),
    ensures
        forall|i: int| 0 <= i < c2.len() - 1 ==> !live(c2, i),
{
    assert forall|i: int| 0 <= i < c2.len() - 1 implies !live(c2, i) by {
        if live(c2, i) {
            if i < c1.len() - m {
                lemma_live_push(c1, b, i);
            } else if i == c1.len() - m {
                if m < 5 {
                    assert(c2[c1.len() as int] == head_pattern()[m]);
                } else {
                    assert(i + 5 < c2.len());
                    assert(!is_name_byte(c2[i + 5]));
                }
            } else {
                // Inside the buffered pattern: those bytes are not `<`.
                let t = i - (c1.len() - m);
                assert(c1[i] == bufv[t]);
                lemma_pattern_interior(t);
                assert(c2[i] == c1[i]);
                lemma_not_open_dead(c2, i);
            }
        }
    }
}

/// Composes two output extensions: the bytes added across both are the bytes
/// added by each, in order.
proof fn lemma_prefix_chain(a: Seq<u8>, b: Seq<u8>, c: Seq<u8>)
    requires
        a.is_prefix_of(b),
        b.is_prefix_of(c),
    ensures
        a.is_prefix_of(c),
        c.skip(a.len() as int) == b.skip(a.len() as int) + c.skip(b.len() as int),
{
    assert(a =~= c.subrange(0, a.len() as int));
    assert(c.skip(a.len() as int) =~= b.skip(a.len() as int) + c.skip(b.len() as int));
}

/// Transforms one whole input in a single call: appends to `out` the bytes of
/// `input` with `script` spliced in immediately after the first `<head ...>`
/// tag's closing `>`, or `input` unchanged when no such tag occurs.
#[verifier::rlimit(50)]
pub fn transform(input: &[u8], script: &[u8], out: &mut Vec<u8>)
    ensures
        final(out)@ == old(out)@ + injected_output(input@, script@),
{
    let mut inj = Injector::new(slice_to_vec(script));
    let ghost o0 = out@;
    inj.feed(input, out);
    let ghost e1 = inj.emitted();
    proof {
        assert(Seq::<u8>::empty() + input@ =~= input@);
        assert(e1.skip(0) =~= e1);
    }
    inj.end(out);
    proof {
        assert(e1 =~= inj.emitted().subrange(0, e1.len() as int));
        assert(o0 + e1 + inj.emitted().skip(e1.len() as int) =~= o0 + inj.emitted());
    }
}

} // verus!
