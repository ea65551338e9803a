//! Log relay: reassembly of the worker's diagnostic byte stream into lines.
//!
//! The model is a fold over the stream's bytes: a newline closes the pending
//! partial line and appends it to the emitted lines; any other byte extends
//! the pending line. A trailing partial line with no terminator is never
//! emitted; at end of stream it is discarded.

use vstd::prelude::*;

verus! {

/// The byte that terminates a line (line feed).
pub const LINE_TERMINATOR: u8 = 10;

/// One byte of stream advances the relay state (emitted lines, pending
/// partial line).
pub open spec fn relay_step(lines: Seq<Seq<u8>>, pending: Seq<u8>, b: u8) -> (Seq<Seq<u8>>, Seq<
    u8,
>) {
    if b == LINE_TERMINATOR {
        (lines.push(pending), Seq::empty())
    } else {
        (lines, pending.push(b))
    }
}

/// Folding a whole byte sequence through the relay, front to back.
pub open spec fn relay_feed(lines: Seq<Seq<u8>>, pending: Seq<u8>, s: Seq<u8>) -> (Seq<Seq<u8>>, Seq<
    u8,
>)
    decreases s.len(),
{
    if s.len() == 0 {
        (lines, pending)
    } else {
        let stepped = relay_step(lines, pending, s[0]);
        relay_feed(stepped.0, stepped.1, s.skip(1))
    }
}

/// The complete lines of a stream, in stream order, terminators stripped.
pub open spec fn lines_of(s: Seq<u8>) -> Seq<Seq<u8>> {
    relay_feed(Seq::empty(), Seq::empty(), s).0
}

/// The trailing partial line of a stream (empty when the stream ends with a
/// terminator).
pub open spec fn rest_of(s: Seq<u8>) -> Seq<u8> {
    relay_feed(Seq::empty(), Seq::empty(), s).1
}

/// Already-emitted lines are never revisited: feeding only appends to them.
pub proof fn lemma_relay_feed_frame(lines: Seq<Seq<u8>>, pending: Seq<u8>, s: Seq<u8>)
    ensures
        relay_feed(lines, pending, s).0 == lines + relay_feed(Seq::empty(), pending, s).0,
        relay_feed(lines, pending, s).1 == relay_feed(Seq::empty(), pending, s).1,
    decreases s.len(),
{
    if s.len() == 0 {
        assert(relay_feed(lines, pending, s).0 =~= lines + relay_feed(
            Seq::empty(),
            pending,
            s,
        ).0);
    } else {
        let b = s[0];
        if b == LINE_TERMINATOR {
            lemma_relay_feed_frame(lines.push(pending), Seq::empty(), s.skip(1));
            lemma_relay_feed_frame(seq![pending], Seq::empty(), s.skip(1));
            assert(lines.push(pending) =~= lines + seq![pending]);
            assert(lines + seq![pending] + relay_feed(Seq::empty(), Seq::empty(), s.skip(1)).0
                =~= lines + (seq![pending] + relay_feed(Seq::empty(), Seq::empty(), s.skip(1)).0));
        } else {
            lemma_relay_feed_frame(lines, pending.push(b), s.skip(1));
        }
    }
}

/// Line reassembly does not depend on how the stream is cut into chunks:
/// feeding `s` and then `t` is feeding `s + t`. In particular the emitted
/// lines follow the byte order of the concatenated stream.
pub proof fn lemma_relay_feed_concat(lines: Seq<Seq<u8>>, pending: Seq<u8>, s: Seq<u8>, t: Seq<u8>)
    ensures
        relay_feed(lines, pending, s + t) == relay_feed(
            relay_feed(lines, pending, s).0,
            relay_feed(lines, pending, s).1,
            t,
        ),
    decreases s.len(),
{
    if s.len() == 0 {
        assert(s + t =~= t);
    } else {
        let stepped = relay_step(lines, pending, s[0]);
        assert((s + t).skip(1) =~= s.skip(1) + t);
        lemma_relay_feed_concat(stepped.0, stepped.1, s.skip(1), t);
    }
}

/// Feeding one more byte is one step on the fold's result.
pub proof fn lemma_relay_feed_snoc(lines: Seq<Seq<u8>>, pending: Seq<u8>, s: Seq<u8>, b: u8)
    ensures
        relay_feed(lines, pending, s.push(b)) == relay_step(
            relay_feed(lines, pending, s).0,
            relay_feed(lines, pending, s).1,
            b,
        ),
{
    let one = seq![b];
    assert(s.push(b) =~= s + one);
    lemma_relay_feed_concat(lines, pending, s, one);
    let fed = relay_feed(lines, pending, s);
    let stepped = relay_step(fed.0, fed.1, one[0]);
    assert(relay_feed(fed.0, fed.1, one) == relay_feed(stepped.0, stepped.1, one.skip(1)));
    assert(one.skip(1) =~= Seq::<u8>::empty());
    assert(relay_feed(stepped.0, stepped.1, Seq::<u8>::empty()) == stepped);
}

/// A line's content never holds a terminator: it is the bytes up to, not
/// including, the terminator that closed it.
pub open spec fn line_clean(l: Seq<u8>) -> bool {
    forall|i: int| 0 <= i < l.len() ==> l[i] != LINE_TERMINATOR
}

/// Every line the relay emits is terminator-free, and so is the pending
/// partial line, provided what it starts from is.
pub proof fn lemma_lines_clean(lines: Seq<Seq<u8>>, pending: Seq<u8>, s: Seq<u8>)
    requires
        forall|j: int| 0 <= j < lines.len() ==> line_clean(#[trigger] lines[j]),
        line_clean(pending),
    ensures
        forall|j: int|
            0 <= j < relay_feed(lines, pending, s).0.len() ==> line_clean(
                #[trigger] relay_feed(lines, pending, s).0[j],
            ),
        line_clean(relay_feed(lines, pending, s).1),
    decreases s.len(),
{
    if s.len() == 0 {
    } else {
        let b = s[0];
        if b == LINE_TERMINATOR {
            assert forall|j: int| 0 <= j < lines.push(pending).len() implies line_clean(
                #[trigger] lines.push(pending)[j],
            ) by {
                if j < lines.len() {
                    assert(lines.push(pending)[j] == lines[j]);
                }
            }
            lemma_lines_clean(lines.push(pending), Seq::empty(), s.skip(1));
        } else {
            assert(line_clean(pending.push(b)));
            lemma_lines_clean(lines, pending.push(b), s.skip(1));
        }
    }
}

/// Rejoins lines, a terminator after each, in front of a trailing partial
/// line.
pub open spec fn rejoin(lines: Seq<Seq<u8>>, pending: Seq<u8>) -> Seq<u8>
    decreases lines.len(),
{
    if lines.len() == 0 {
        pending
    } else {
        lines[0].push(LINE_TERMINATOR) + rejoin(lines.skip(1), pending)
    }
}

/// The relay loses no byte and reorders none: rejoining what it emitted
/// and what it holds pending gives back exactly the bytes it was fed.
pub proof fn lemma_relay_rejoin(pending: Seq<u8>, s: Seq<u8>)
    ensures
        rejoin(relay_feed(Seq::empty(), pending, s).0, relay_feed(Seq::empty(), pending, s).1)
            == pending + s,
    decreases s.len(),
{
    if s.len() == 0 {
        assert(pending + s =~= pending);
    } else {
        let b = s[0];
        if b == LINE_TERMINATOR {
            assert(Seq::<Seq<u8>>::empty().push(pending) =~= seq![pending]);
            lemma_relay_feed_frame(seq![pending], Seq::empty(), s.skip(1));
            lemma_relay_rejoin(Seq::empty(), s.skip(1));
            let fed = relay_feed(Seq::empty(), Seq::empty(), s.skip(1));
            assert((seq![pending] + fed.0).skip(1) =~= fed.0);
            assert((seq![pending] + fed.0)[0] == pending);
            assert(rejoin(seq![pending] + fed.0, fed.1) == pending.push(LINE_TERMINATOR) + rejoin(
                fed.0,
                fed.1,
            ));
            assert(Seq::<u8>::empty() + s.skip(1) =~= s.skip(1));
            assert(pending.push(LINE_TERMINATOR) + s.skip(1) =~= pending + s);
        } else {
            lemma_relay_rejoin(pending.push(b), s.skip(1));
            assert(pending.push(b) + s.skip(1) =~= pending + s);
        }
    }
}

/// Drains one chunk of the diagnostic stream into the pending buffer and
/// returns the lines completed by it, terminators stripped, in stream order.
pub fn split_chunk(pending: &mut Vec<u8>, chunk: &[u8]) -> (lines: Vec<Vec<u8>>)
    ensures
        lines.deep_view() == relay_feed(Seq::empty(), old(pending)@, chunk@).0,
        final(pending)@ == relay_feed(Seq::empty(), old(pending)@, chunk@).1,
{
    let mut lines: Vec<Vec<u8>> = Vec::new();
    let mut i: usize = 0;
    while i < chunk.len()
        invariant
            i <= chunk.len(),
            lines.deep_view() == relay_feed(Seq::empty(), old(pending)@, chunk@.take(i as int)).0,
            pending@ == relay_feed(Seq::empty(), old(pending)@, chunk@.take(i as int)).1,
        decreases chunk.len() - i,
    {
        let ghost prior_lines = lines.deep_view();
        let ghost prior_pending = pending@;
        let b = chunk[i];
        if b == LINE_TERMINATOR {
            let mut full: Vec<u8> = Vec::new();
            core::mem::swap(pending, &mut full);
            proof {
                assert(full.deep_view() =~= prior_pending);
            }
            lines.push(full);
            proof {
                assert(lines.deep_view() =~= prior_lines.push(prior_pending));
            }
        } else {
            pending.push(b);
        }
        i = i + 1;
        proof {
            assert(chunk@.take(i as int) =~= chunk@.take(i - 1).push(chunk@[i - 1]));
            lemma_relay_feed_snoc(Seq::empty(), old(pending)@, chunk@.take(i - 1), chunk@[i - 1]);
        }
    }
    proof {
        assert(chunk@.take(chunk@.len() as int) =~= chunk@);
    }
    lines
}

} // verus!
