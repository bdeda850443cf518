//! The laws of the signal graph and of batching, stated over the spec
//! functions that the executable contracts use.

use vstd::prelude::*;
use crate::msg::Message;
use crate::txrx::{
    Responder, Unmapped, Mapper, graph_wf, fan_out, fan_out_to, sent_to, send_all,
    lemma_sent_to_add,
};
use crate::component::{Component, fold_emits};

verus! {

/// Fan-out order: a send on a channel with recording responders registered
/// in order s1, s2, s3 delivers to them in exactly that order.
pub proof fn lemma_fan_out_order<M: Message>(
    chans: Seq<Seq<Responder<Unmapped>>>,
    c: int,
    s1: usize,
    s2: usize,
    s3: usize,
    m: M,
)
    requires
        0 <= c < chans.len(),
        chans[c] == seq![
            Responder::<Unmapped>::Sink(s1),
            Responder::<Unmapped>::Sink(s2),
            Responder::<Unmapped>::Sink(s3),
        ],
    ensures
        fan_out(chans, c, m) == seq![(s1 as int, m), (s2 as int, m), (s3 as int, m)],
{
    assert(fan_out_to(chans, c, 0, m) =~= Seq::<(int, M)>::empty());
    assert(fan_out_to(chans, c, 1, m) =~= seq![(s1 as int, m)]);
    assert(fan_out_to(chans, c, 2, m) =~= seq![(s1 as int, m), (s2 as int, m)]);
    assert(fan_out_to(chans, c, 3, m) =~= seq![(s1 as int, m), (s2 as int, m), (s3 as int, m)]);
    assert(fan_out(chans, c, m) == fan_out_to(chans, c, 3, m));
}

/// Depth-first derivation: a mapped edge standing between two recording
/// responders delivers its whole derived send before the next responder of
/// the original channel runs.
pub proof fn lemma_fan_out_depth_first<M: Message, P: Mapper<M>>(
    chans: Seq<Seq<Responder<P>>>,
    c: int,
    c2: usize,
    s1: usize,
    sd: usize,
    s2: usize,
    p: P,
    m: M,
)
    requires
        0 <= c < chans.len(),
        c < c2,
        c2 < chans.len(),
        chans[c] == seq![
            Responder::<P>::Sink(s1),
            Responder::<P>::Mapped(p, c2),
            Responder::<P>::Sink(s2),
        ],
        chans[c2 as int] == seq![Responder::<P>::Sink(sd)],
    ensures
        fan_out(chans, c, m) == seq![
            (s1 as int, m),
            (sd as int, p.map_spec(m)),
            (s2 as int, m),
        ],
{
    let d = p.map_spec(m);
    assert(fan_out_to(chans, c2 as int, 0, d) =~= Seq::<(int, M)>::empty());
    assert(fan_out_to(chans, c2 as int, 1, d) =~= seq![(sd as int, d)]);
    assert(fan_out(chans, c2 as int, d) == fan_out_to(chans, c2 as int, 1, d));
    assert(fan_out_to(chans, c, 0, m) =~= Seq::<(int, M)>::empty());
    assert(fan_out_to(chans, c, 1, m) =~= seq![(s1 as int, m)]);
    assert(fan_out_to(chans, c, 2, m) =~= seq![(s1 as int, m), (sd as int, d)]);
    assert(fan_out_to(chans, c, 3, m) =~= seq![(s1 as int, m), (sd as int, d), (s2 as int, m)]);
    assert(fan_out(chans, c, m) == fan_out_to(chans, c, 3, m));
}

/// Fan-out order at a component's input: with the mailbox and three
/// recording taps registered in that order on the input channel, one update
/// delivers to the mailbox and then to each tap, in registration order,
/// exactly once each — `update` extends the instance's input history by
/// exactly this fan-out.
pub proof fn lemma_input_fan_out_order<M: Message>(
    chans: Seq<Seq<Responder<Unmapped>>>,
    s1: usize,
    s2: usize,
    s3: usize,
    m: M,
)
    requires
        0 < chans.len(),
        chans[0] == seq![
            Responder::<Unmapped>::Sink(0),
            Responder::<Unmapped>::Sink(s1),
            Responder::<Unmapped>::Sink(s2),
            Responder::<Unmapped>::Sink(s3),
        ],
    ensures
        fan_out(chans, 0, m) == seq![(0int, m), (s1 as int, m), (s2 as int, m), (s3 as int, m)],
{
    assert(fan_out_to(chans, 0, 0, m) =~= Seq::<(int, M)>::empty());
    assert(fan_out_to(chans, 0, 1, m) =~= seq![(0int, m)]);
    assert(fan_out_to(chans, 0, 2, m) =~= seq![(0int, m), (s1 as int, m)]);
    assert(fan_out_to(chans, 0, 3, m) =~= seq![(0int, m), (s1 as int, m), (s2 as int, m)]);
    assert(fan_out_to(chans, 0, 4, m) =~= seq![
        (0int, m),
        (s1 as int, m),
        (s2 as int, m),
        (s3 as int, m),
    ]);
    assert(fan_out(chans, 0, m) == fan_out_to(chans, 0, 4, m));
}

/// In a well-formed graph, every delivery names a registered sink.
pub proof fn lemma_fan_out_to_bounded<M: Message, P: Mapper<M>>(
    chans: Seq<Seq<Responder<P>>>,
    nsinks: int,
    c: int,
    j: int,
    m: M,
)
    requires
        graph_wf(chans, nsinks),
    ensures
        forall|k: int|
            0 <= k < fan_out_to(chans, c, j, m).len() ==> (#[trigger] fan_out_to(
                chans,
                c,
                j,
                m,
            )[k]).0 < nsinks,
    decreases chans.len() - c, j,
{
    if !(0 <= c < chans.len()) || j <= 0 || j > chans[c].len() {
    } else {
        lemma_fan_out_to_bounded(chans, nsinks, c, j - 1, m);
        let prev = fan_out_to(chans, c, j - 1, m);
        let cur = fan_out_to(chans, c, j, m);
        match chans[c][j - 1] {
            Responder::Sink(s) => {
                assert(edge_holds(chans, nsinks, c, j - 1));
                assert(cur == prev.push((s as int, m)));
                assert forall|k: int| 0 <= k < cur.len() implies (#[trigger] cur[k]).0
                    < nsinks by {
                    if k < prev.len() {
                        assert(cur[k] == prev[k]);
                    } else {
                        assert(cur[k] == (s as int, m));
                    }
                }
            },
            Responder::Mapped(p, c2) => {
                assert(edge_holds(chans, nsinks, c, j - 1));
                let d = fan_out(chans, c2 as int, p.map_spec(m));
                lemma_fan_out_to_bounded(
                    chans,
                    nsinks,
                    c2 as int,
                    chans[c2 as int].len() as int,
                    p.map_spec(m),
                );
                assert(d == fan_out_to(chans, c2 as int, chans[c2 as int].len() as int, p.map_spec(m)));
                assert(cur == prev + d);
                assert forall|k: int| 0 <= k < cur.len() implies (#[trigger] cur[k]).0
                    < nsinks by {
                    if k < prev.len() {
                        assert(cur[k] == prev[k]);
                    } else {
                        assert(cur[k] == d[k - prev.len()]);
                        assert(d[k - prev.len()] == fan_out_to(
                            chans,
                            c2 as int,
                            chans[c2 as int].len() as int,
                            p.map_spec(m),
                        )[k - prev.len()]);
                    }
                }
            },
        }
    }
}

/// The well-formedness of one responder, spelled out for instantiation.
pub open spec fn edge_holds<P>(
    chans: Seq<Seq<Responder<P>>>,
    nsinks: int,
    c: int,
    j: int,
) -> bool {
    crate::txrx::edge_ok(c, chans[c][j], chans.len() as int, nsinks)
}

/// A delivery sequence that never names sink `s` hands it nothing.
pub proof fn lemma_sent_to_absent<M>(d: Seq<(int, M)>, s: int)
    requires
        forall|k: int| 0 <= k < d.len() ==> (#[trigger] d[k]).0 != s,
    ensures
        sent_to(d, s) == Seq::<M>::empty(),
    decreases d.len(),
{
    if d.len() > 0 {
        lemma_sent_to_absent(d.drop_last(), s);
    }
}

/// No replay: in a well-formed graph no send delivers anything to a sink
/// registered only afterwards, so a responder registered after N messages
/// never observes those N messages.
pub proof fn lemma_no_replay<M: Message, P: Mapper<M>>(
    chans: Seq<Seq<Responder<P>>>,
    nsinks: int,
    c: int,
    m: M,
    s: int,
)
    requires
        graph_wf(chans, nsinks),
        s >= nsinks,
    ensures
        sent_to(fan_out(chans, c, m), s) == Seq::<M>::empty(),
{
    if 0 <= c < chans.len() {
        lemma_fan_out_to_bounded(chans, nsinks, c, chans[c].len() as int, m);
        let d = fan_out(chans, c, m);
        assert forall|k: int| 0 <= k < d.len() implies (#[trigger] d[k]).0 != s by {
            assert(d[k] == fan_out_to(chans, c, chans[c].len() as int, m)[k]);
        }
        lemma_sent_to_absent(d, s);
    } else {
        assert(fan_out(chans, c, m) =~= Seq::<(int, M)>::empty());
    }
}

/// Branch independence: two recording responders on one channel each
/// receive a sent message exactly once, with no cross-talk.
pub proof fn lemma_branch_once<M: Message>(
    chans: Seq<Seq<Responder<Unmapped>>>,
    c: int,
    s1: usize,
    s2: usize,
    m: M,
)
    requires
        0 <= c < chans.len(),
        s1 != s2,
        chans[c] == seq![Responder::<Unmapped>::Sink(s1), Responder::<Unmapped>::Sink(s2)],
    ensures
        sent_to(fan_out(chans, c, m), s1 as int) == seq![m],
        sent_to(fan_out(chans, c, m), s2 as int) == seq![m],
{
    assert(fan_out_to(chans, c, 0, m) =~= Seq::<(int, M)>::empty());
    assert(fan_out_to(chans, c, 1, m) =~= seq![(s1 as int, m)]);
    assert(fan_out_to(chans, c, 2, m) =~= seq![(s1 as int, m), (s2 as int, m)]);
    assert(fan_out(chans, c, m) == fan_out_to(chans, c, 2, m));
    let d = seq![(s1 as int, m), (s2 as int, m)];
    assert(d.drop_last() =~= seq![(s1 as int, m)]);
    assert(seq![(s1 as int, m)].drop_last() =~= Seq::<(int, M)>::empty());
    assert(sent_to(Seq::<(int, M)>::empty(), s1 as int) =~= Seq::<M>::empty());
    assert(sent_to(Seq::<(int, M)>::empty(), s2 as int) =~= Seq::<M>::empty());
    assert(sent_to(seq![(s1 as int, m)], s1 as int) =~= seq![m]);
    assert(sent_to(seq![(s1 as int, m)], s2 as int) =~= Seq::<M>::empty());
    assert(sent_to(d, s1 as int) =~= seq![m]);
    assert(sent_to(d, s2 as int) =~= seq![m]);
}

/// Batching collapse: flushing a buffer of messages onto a public output
/// channel with one recording responder hands that responder exactly the
/// buffered messages, in push order — one burst, however many sends filled
/// the buffer.
pub proof fn lemma_flush_order<M: Message>(
    chans: Seq<Seq<Responder<Unmapped>>>,
    c: int,
    s: usize,
    ms: Seq<M>,
)
    requires
        0 <= c < chans.len(),
        chans[c] == seq![Responder::<Unmapped>::Sink(s)],
    ensures
        sent_to(send_all(chans, c, ms), s as int) == ms,
    decreases ms.len(),
{
    if ms.len() == 0 {
        assert(send_all(chans, c, ms) =~= Seq::<(int, M)>::empty());
        assert(sent_to(send_all(chans, c, ms), s as int) =~= ms);
    } else {
        lemma_flush_order(chans, c, s, ms.drop_last());
        let last = ms.last();
        assert(fan_out_to(chans, c, 0, last) =~= Seq::<(int, M)>::empty());
        assert(fan_out_to(chans, c, 1, last) =~= seq![(s as int, last)]);
        assert(fan_out(chans, c, last) == fan_out_to(chans, c, 1, last));
        let sa = send_all(chans, c, ms.drop_last());
        let fo = fan_out(chans, c, last);
        assert(send_all(chans, c, ms) == sa + fo);
        lemma_sent_to_add(sa, fo, s as int);
        assert(seq![(s as int, last)].drop_last() =~= Seq::<(int, M)>::empty());
        assert(sent_to(Seq::<(int, M)>::empty(), s as int) =~= Seq::<M>::empty());
        assert(sent_to(seq![(s as int, last)], s as int) =~= seq![last]);
        assert(sent_to(fo, s as int) =~= seq![last]);
        assert(ms.drop_last() + seq![last] =~= ms);
    }
}

/// Tick coalescing: however many updates ran this tick, every view message
/// they emitted flushes in one burst, and a recording responder on the
/// public output receives exactly those messages, in emission order.
pub proof fn lemma_tick_coalescing<T: Component>(
    s: T,
    ms: Seq<T::ModelMsg>,
    chans: Seq<Seq<Responder<Unmapped>>>,
    c: int,
    sk: usize,
)
    requires
        0 <= c < chans.len(),
        chans[c] == seq![Responder::<Unmapped>::Sink(sk)],
    ensures
        sent_to(send_all(chans, c, fold_emits(s, ms)), sk as int) == fold_emits(s, ms),
{
    lemma_flush_order(chans, c, sk, fold_emits(s, ms));
}

/// Stateless forwarding: a component that forwards every model message
/// unchanged emits exactly that message, and a flush of the resulting
/// buffer hands it to a public-output recorder as the sole view message.
pub proof fn lemma_stateless_forwarding<M: Message, T: Component<ModelMsg = M, ViewMsg = M>>(
    s: T,
    m: M,
    chans: Seq<Seq<Responder<Unmapped>>>,
    c: int,
    sk: usize,
)
    requires
        forall|x: M| #[trigger] s.emits(x) == seq![x],
        0 <= c < chans.len(),
        chans[c] == seq![Responder::<Unmapped>::Sink(sk)],
    ensures
        s.emits(m) == seq![m],
        sent_to(send_all(chans, c, s.emits(m)), sk as int) == seq![m],
{
    lemma_flush_order(chans, c, sk, seq![m]);
}

} // verus!
