//! The signal primitives: a typed one-to-many push channel.
//!
//! A `Hub` owns the whole graph for one message type: every channel's ordered
//! responder list and every registered sink's log. `Transmitter` and
//! `Receiver` are plain handles naming a channel of the hub. Sending a
//! message walks the channel's responders in registration order; a mapped
//! edge re-sends the transformed message on its derived channel depth-first,
//! before the next responder of the original channel runs. The ghost
//! delivery history records that order exactly.

use vstd::prelude::*;
use crate::msg::Message;

verus! {

/// A pure transformation carried by a mapped edge of the graph.
///
/// Mapped edges are the defunctionalized form of the mapping closures handed
/// to `branch_map` and `forward_map`: a user gathers the transformations one
/// graph needs into a small `Copy` type and implements `Mapper` for it.
pub trait Mapper<M>: Sized + Copy {
    /// What the transformation returns, as a mathematical function.
    spec fn map_spec(self, m: M) -> M;

    /// Apply the transformation.
    fn map(&self, m: &M) -> (r: M)
        ensures
            r == self.map_spec(*m),
    ;
}

/// The mapper that leaves every message unchanged.
#[derive(Clone, Copy)]
pub struct Unmapped;

impl<M: Message> Mapper<M> for Unmapped {
    open spec fn map_spec(self, m: M) -> M {
        m
    }

    fn map(&self, m: &M) -> M {
        m.dup()
    }
}

/// A pure translation between message types: the defunctionalized form of
/// the cross-type mapping closures handed to `branch_map` and
/// `forward_map`, for carrying messages from a graph of one type into a
/// graph of another.
pub trait Translate<M, N>: Sized {
    /// What the translation returns, as a mathematical function.
    spec fn translate_spec(self, m: M) -> N;

    /// Apply the translation.
    fn translate(&self, m: &M) -> (r: N)
        ensures
            r == self.translate_spec(*m),
    ;
}

/// Each message of `ms` translated, in order.
pub open spec fn translate_all<M, N, F: Translate<M, N>>(f: F, ms: Seq<M>) -> Seq<N> {
    Seq::new(ms.len(), |i: int| f.translate_spec(ms[i]))
}

/// One registered reaction to a message arriving on a channel.
#[derive(Clone, Copy)]
pub enum Responder<P> {
    /// Record the message at the end of the sink log with this index.
    Sink(usize),
    /// Apply the mapper, then send the result on the channel with this
    /// index, depth-first.
    Mapped(P, usize),
}

/// Broadcast source handle: names the hub channel it sends on.
///
/// Cloning a transmitter shares the channel's responder set; the copy sends
/// to exactly the same responders.
#[derive(Clone, Copy)]
pub struct Transmitter {
    pub chan: usize,
}

/// Subscription handle: names the hub channel it observes.
#[derive(Clone, Copy)]
pub struct Receiver {
    pub chan: usize,
}

impl Receiver {
    /// A new receiver observing the same source, with its own future
    /// registrations.
    pub fn branch(&self) -> (r: Receiver)
        ensures
            r.chan == self.chan,
    {
        Receiver { chan: self.chan }
    }
}

/// A transmitter wrapped behind a transformation: it accepts a message,
/// maps it, and forwards the result on the wrapped channel — how a raw
/// external event is translated into a component's model message before it
/// enters the graph.
pub struct ContraTx<P> {
    pub tx: Transmitter,
    pub map: P,
}

impl Transmitter {
    /// Wrap this transmitter behind a transformation.
    pub fn contra_map<P>(&self, p: P) -> (r: ContraTx<P>)
        ensures
            r.tx == *self,
            r.map == p,
    {
        ContraTx { tx: Transmitter { chan: self.chan }, map: p }
    }
}

/// A responder is well formed when a sink it names is registered and a
/// mapped edge leads to a strictly later channel, so that message flow
/// always moves from a channel to channels derived from it.
pub open spec fn edge_ok<P>(c: int, r: Responder<P>, nchans: int, nsinks: int) -> bool {
    match r {
        Responder::Sink(s) => s < nsinks,
        Responder::Mapped(_, c2) => c < c2 && c2 < nchans,
    }
}

/// Every responder of every channel is well formed.
pub open spec fn graph_wf<P>(chans: Seq<Seq<Responder<P>>>, nsinks: int) -> bool {
    forall|c: int, j: int|
        0 <= c < chans.len() && 0 <= j < chans[c].len() ==> edge_ok(
            c,
            #[trigger] chans[c][j],
            chans.len() as int,
            nsinks,
        )
}

/// The deliveries produced by the first `j` responders of channel `c` for
/// message `m`: pairs of sink index and delivered message, in delivery
/// order, with mapped edges expanded depth-first.
pub open spec fn fan_out_to<M, P: Mapper<M>>(
    chans: Seq<Seq<Responder<P>>>,
    c: int,
    j: int,
    m: M,
) -> Seq<(int, M)>
    decreases chans.len() - c, j,
{
    if !(0 <= c < chans.len()) || j <= 0 || j > chans[c].len() {
        Seq::empty()
    } else {
        let prev = fan_out_to(chans, c, j - 1, m);
        match chans[c][j - 1] {
            Responder::Sink(s) => prev.push((s as int, m)),
            Responder::Mapped(p, c2) => if c < c2 && c2 < chans.len() {
                prev + fan_out(chans, c2 as int, p.map_spec(m))
            } else {
                prev
            },
        }
    }
}

/// The deliveries produced by sending `m` on channel `c`.
pub open spec fn fan_out<M, P: Mapper<M>>(chans: Seq<Seq<Responder<P>>>, c: int, m: M) -> Seq<
    (int, M),
>
    decreases chans.len() - c, chans[c].len() + 1,
{
    if 0 <= c < chans.len() {
        fan_out_to(chans, c, chans[c].len() as int, m)
    } else {
        Seq::empty()
    }
}

/// The deliveries produced by sending each message of `ms`, in order, on
/// channel `c`.
pub open spec fn send_all<M, P: Mapper<M>>(
    chans: Seq<Seq<Responder<P>>>,
    c: int,
    ms: Seq<M>,
) -> Seq<(int, M)>
    decreases ms.len(),
{
    if ms.len() == 0 {
        Seq::empty()
    } else {
        send_all(chans, c, ms.drop_last()) + fan_out(chans, c, ms.last())
    }
}

/// The messages a delivery sequence hands to sink `s`, in order.
pub open spec fn sent_to<M>(d: Seq<(int, M)>, s: int) -> Seq<M>
    decreases d.len(),
{
    if d.len() == 0 {
        Seq::empty()
    } else {
        let rest = sent_to(d.drop_last(), s);
        if d.last().0 == s {
            rest.push(d.last().1)
        } else {
            rest
        }
    }
}

/// Projection distributes over concatenation of delivery sequences.
pub proof fn lemma_sent_to_add<M>(a: Seq<(int, M)>, b: Seq<(int, M)>, s: int)
    ensures
        sent_to(a + b, s) == sent_to(a, s) + sent_to(b, s),
    decreases b.len(),
{
    if b.len() == 0 {
        assert(a + b =~= a);
        assert(sent_to(a, s) + Seq::<M>::empty() =~= sent_to(a, s));
    } else {
        lemma_sent_to_add(a, b.drop_last(), s);
        assert((a + b).drop_last() =~= a + b.drop_last());
        assert((a + b).last() == b.last());
        if b.last().0 == s {
            assert(sent_to(a, s) + sent_to(b, s) =~= (sent_to(a, s) + sent_to(
                b.drop_last(),
                s,
            )).push(b.last().1));
        }
    }
}

/// A delivery sequence extended by one delivery.
pub proof fn lemma_sent_to_push<M>(d: Seq<(int, M)>, e: (int, M), s: int)
    ensures
        sent_to(d.push(e), s) == if e.0 == s {
            sent_to(d, s).push(e.1)
        } else {
            sent_to(d, s)
        },
{
    assert(d.push(e).drop_last() =~= d);
    assert(d.push(e).last() == e);
}

/// The signal graph for one message type: channels with their ordered
/// responders, sink logs, and the ghost history of every delivery made so
/// far, in delivery order.
pub struct Hub<M, P> {
    channels: Vec<Vec<Responder<P>>>,
    sinks: Vec<Vec<M>>,
    history: Ghost<Seq<(int, M)>>,
}

impl<M: Message, P: Mapper<M>> Hub<M, P> {
    /// The responder lists of all channels, in creation order.
    pub closed spec fn chans(self) -> Seq<Seq<Responder<P>>> {
        Seq::new(self.channels@.len(), |i: int| self.channels@[i]@)
    }

    /// The sink logs, in registration order.
    pub closed spec fn logs(self) -> Seq<Seq<M>> {
        Seq::new(self.sinks@.len(), |i: int| self.sinks@[i]@)
    }

    /// Every delivery ever made, in delivery order.
    pub closed spec fn hist(self) -> Seq<(int, M)> {
        self.history@
    }

    pub closed spec fn wf(self) -> bool {
        graph_wf(self.chans(), self.logs().len() as int)
    }

    /// An empty graph: no channels, no sinks, nothing delivered.
    pub fn new() -> (h: Hub<M, P>)
        ensures
            h.wf(),
            h.chans() == Seq::<Seq<Responder<P>>>::empty(),
            h.logs() == Seq::<Seq<M>>::empty(),
            h.hist() == Seq::<(int, M)>::empty(),
    {
        let h = Hub { channels: Vec::new(), sinks: Vec::new(), history: Ghost(Seq::empty()) };
        proof {
            assert(h.chans() =~= Seq::<Seq<Responder<P>>>::empty());
            assert(h.logs() =~= Seq::<Seq<M>>::empty());
        }
        h
    }

    /// Paired construction: a fresh channel with no responders, with the
    /// transmitter and receiver handles that name it.
    pub fn txrx(&mut self) -> (r: (Transmitter, Receiver))
        requires
            old(self).wf(),
        ensures
            final(self).wf(),
            final(self).chans() == old(self).chans().push(Seq::<Responder<P>>::empty()),
            final(self).logs() == old(self).logs(),
            final(self).hist() == old(self).hist(),
            r.0.chan == old(self).chans().len(),
            r.1.chan == r.0.chan,
    {
        let c = self.channels.len();
        self.channels.push(Vec::new());
        proof {
            assert(self.chans() =~= old(self).chans().push(Seq::<Responder<P>>::empty()));
            assert(self.logs() =~= old(self).logs());
        }
        (Transmitter { chan: c }, Receiver { chan: c })
    }

    /// Register a recording responder for every future message on the
    /// receiver's channel. The fresh sink log starts empty: messages sent
    /// before registration are never replayed.
    pub fn respond(&mut self, rx: &Receiver) -> (s: usize)
        requires
            old(self).wf(),
            rx.chan < old(self).chans().len(),
        ensures
            final(self).wf(),
            s == old(self).logs().len(),
            final(self).logs() == old(self).logs().push(Seq::<M>::empty()),
            final(self).chans() == old(self).chans().update(
                rx.chan as int,
                old(self).chans()[rx.chan as int].push(Responder::Sink(s)),
            ),
            final(self).hist() == old(self).hist(),
    {
        let s = self.sinks.len();
        self.sinks.push(Vec::new());
        let row = &mut self.channels[rx.chan];
        row.push(Responder::Sink(s));
        proof {
            assert(self.logs() =~= old(self).logs().push(Seq::<M>::empty()));
            assert(self.chans() =~= old(self).chans().update(
                rx.chan as int,
                old(self).chans()[rx.chan as int].push(Responder::Sink(s as usize)),
            ));
        }
        s
    }

    /// Read a sink's log.
    pub fn log_ref(&self, s: usize) -> (v: &Vec<M>)
        requires
            s < self.logs().len(),
        ensures
            v@ == self.logs()[s as int],
    {
        &self.sinks[s]
    }

    /// Empty a sink's log, handing its contents over in order.
    pub fn drain(&mut self, s: usize) -> (v: Vec<M>)
        requires
            old(self).wf(),
            s < old(self).logs().len(),
        ensures
            final(self).wf(),
            v@ == old(self).logs()[s as int],
            final(self).logs() == old(self).logs().update(s as int, Seq::<M>::empty()),
            final(self).chans() == old(self).chans(),
            final(self).hist() == old(self).hist(),
    {
        let mut taken: Vec<M> = Vec::new();
        let slot = &mut self.sinks[s];
        core::mem::swap(slot, &mut taken);
        proof {
            assert(self.logs() =~= old(self).logs().update(s as int, Seq::<M>::empty()));
            assert(self.chans() =~= old(self).chans());
        }
        taken
    }

    /// Register an already existing sink as a responder on the receiver's
    /// channel, fanning several channels into one log.
    pub fn tee(&mut self, rx: &Receiver, s: usize)
        requires
            old(self).wf(),
            rx.chan < old(self).chans().len(),
            s < old(self).logs().len(),
        ensures
            final(self).wf(),
            final(self).chans() == old(self).chans().update(
                rx.chan as int,
                old(self).chans()[rx.chan as int].push(Responder::Sink(s)),
            ),
            final(self).logs() == old(self).logs(),
            final(self).hist() == old(self).hist(),
    {
        let row = &mut self.channels[rx.chan];
        row.push(Responder::Sink(s));
        proof {
            assert(self.chans() =~= old(self).chans().update(
                rx.chan as int,
                old(self).chans()[rx.chan as int].push(Responder::Sink(s as usize)),
            ));
            assert(self.logs() =~= old(self).logs());
        }
    }

    /// Allocate a derived transmitter/receiver pair and register a mapped
    /// edge on the receiver's channel: every message on it is transformed by
    /// the mapper and re-sent on the derived channel, depth-first.
    pub fn branch_map(&mut self, rx: &Receiver, p: P) -> (r: (Transmitter, Receiver))
        requires
            old(self).wf(),
            rx.chan < old(self).chans().len(),
        ensures
            final(self).wf(),
            r.0.chan == old(self).chans().len(),
            r.1.chan == r.0.chan,
            final(self).chans() == old(self).chans().push(
                Seq::<Responder<P>>::empty(),
            ).update(
                rx.chan as int,
                old(self).chans()[rx.chan as int].push(Responder::Mapped(p, r.0.chan)),
            ),
            final(self).logs() == old(self).logs(),
            final(self).hist() == old(self).hist(),
    {
        let c = self.channels.len();
        self.channels.push(Vec::new());
        let row = &mut self.channels[rx.chan];
        row.push(Responder::Mapped(p, c));
        proof {
            assert(self.chans() =~= old(self).chans().push(
                Seq::<Responder<P>>::empty(),
            ).update(
                rx.chan as int,
                old(self).chans()[rx.chan as int].push(Responder::Mapped(p, c as usize)),
            ));
            assert(self.logs() =~= old(self).logs());
        }
        (Transmitter { chan: c }, Receiver { chan: c })
    }

    /// Register a mapped edge from the receiver's channel into an existing
    /// transmitter's channel: every message on the receiver is transformed
    /// and re-sent there, depth-first. The target must be a channel derived
    /// after the source, so that message flow keeps moving forward.
    pub fn forward_map(&mut self, rx: &Receiver, tx: &Transmitter, p: P)
        requires
            old(self).wf(),
            rx.chan < tx.chan,
            tx.chan < old(self).chans().len(),
        ensures
            final(self).wf(),
            final(self).chans() == old(self).chans().update(
                rx.chan as int,
                old(self).chans()[rx.chan as int].push(Responder::Mapped(p, tx.chan)),
            ),
            final(self).logs() == old(self).logs(),
            final(self).hist() == old(self).hist(),
    {
        let row = &mut self.channels[rx.chan];
        row.push(Responder::Mapped(p, tx.chan));
        proof {
            assert(self.chans() =~= old(self).chans().update(
                rx.chan as int,
                old(self).chans()[rx.chan as int].push(Responder::Mapped(p, tx.chan)),
            ));
        }
    }

    /// Send a message: every responder of the transmitter's channel runs
    /// synchronously, in registration order; a message with no responders is
    /// dropped. The history grows by exactly the fan-out of the channel, and
    /// each sink log by the messages the fan-out hands to it, in order.
    pub fn send(&mut self, tx: &Transmitter, m: &M)
        requires
            old(self).wf(),
            tx.chan < old(self).chans().len(),
        ensures
            final(self).wf(),
            final(self).chans() == old(self).chans(),
            final(self).logs().len() == old(self).logs().len(),
            forall|s: int|
                0 <= s < old(self).logs().len() ==> final(self).logs()[s] == old(self).logs()[s]
                    + sent_to(fan_out(old(self).chans(), tx.chan as int, *m), s),
            final(self).hist() == old(self).hist() + fan_out(
                old(self).chans(),
                tx.chan as int,
                *m,
            ),
    {
        self.send_chan(tx.chan, m);
    }

    /// Send through a contravariantly mapped transmitter: the message is
    /// transformed first, then the result fans out on the wrapped channel
    /// exactly as a plain send would.
    pub fn send_contra(&mut self, ct: &ContraTx<P>, m: &M)
        requires
            old(self).wf(),
            ct.tx.chan < old(self).chans().len(),
        ensures
            final(self).wf(),
            final(self).chans() == old(self).chans(),
            final(self).logs().len() == old(self).logs().len(),
            forall|s: int|
                0 <= s < old(self).logs().len() ==> final(self).logs()[s] == old(self).logs()[s]
                    + sent_to(
                    fan_out(old(self).chans(), ct.tx.chan as int, ct.map.map_spec(*m)),
                    s,
                ),
            final(self).hist() == old(self).hist() + fan_out(
                old(self).chans(),
                ct.tx.chan as int,
                ct.map.map_spec(*m),
            ),
    {
        let mm = ct.map.map(m);
        self.send(&ct.tx, &mm);
    }

    /// Deliver `m` to channel `c`'s responders in order, recursing
    /// depth-first into mapped edges.
    #[verifier::loop_isolation(false)]
    fn send_chan(&mut self, c: usize, m: &M)
        requires
            old(self).wf(),
            c < old(self).chans().len(),
        ensures
            final(self).wf(),
            final(self).chans() == old(self).chans(),
            final(self).logs().len() == old(self).logs().len(),
            forall|s: int|
                0 <= s < old(self).logs().len() ==> final(self).logs()[s] == old(self).logs()[s]
                    + sent_to(fan_out(old(self).chans(), c as int, *m), s),
            final(self).hist() == old(self).hist() + fan_out(old(self).chans(), c as int, *m),
        decreases old(self).chans().len() - c,
    {
        let ghost pre = *old(self);
        let n = self.channels[c].len();
        let mut j: usize = 0;
        while j < n
            invariant
                pre.wf(),
                c < pre.chans().len(),
                n == pre.chans()[c as int].len(),
                j <= n,
                self.wf(),
                self.chans() == pre.chans(),
                self.logs().len() == pre.logs().len(),
                forall|s: int|
                    0 <= s < pre.logs().len() ==> self.logs()[s] == pre.logs()[s] + sent_to(
                        fan_out_to(pre.chans(), c as int, j as int, *m),
                        s,
                    ),
                self.hist() == pre.hist() + fan_out_to(pre.chans(), c as int, j as int, *m),
            decreases n - j,
        {
            let ghost mid = *self;
            let ghost done = fan_out_to(pre.chans(), c as int, j as int, *m);
            let r = self.channels[c][j];
            assert(r == pre.chans()[c as int][j as int]);
            assert(edge_ok(
                c as int,
                pre.chans()[c as int][j as int],
                pre.chans().len() as int,
                pre.logs().len() as int,
            ));
            match r {
                Responder::Sink(s) => {
                    let mm = m.dup();
                    let row = &mut self.sinks[s];
                    row.push(mm);
                    proof {
                        self.history@ = self.history@.push((s as int, *m));
                        assert(fan_out_to(pre.chans(), c as int, j as int + 1, *m) =~= done.push(
                            (s as int, *m),
                        ));
                        assert forall|t: int| 0 <= t < pre.logs().len() implies self.logs()[t]
                            == pre.logs()[t] + sent_to(
                            fan_out_to(pre.chans(), c as int, j as int + 1, *m),
                            t,
                        ) by {
                            lemma_sent_to_push(done, (s as int, *m), t);
                            if t == s {
                                assert(self.logs()[t] =~= mid.logs()[t].push(*m));
                                assert(pre.logs()[t] + sent_to(done, t).push(*m) =~= (pre.logs()[t]
                                    + sent_to(done, t)).push(*m));
                            } else {
                                assert(self.logs()[t] == mid.logs()[t]);
                            }
                        }
                        assert(self.logs().len() == pre.logs().len());
                        assert(self.chans() =~= pre.chans());
                        assert(self.hist() == pre.hist() + fan_out_to(
                            pre.chans(),
                            c as int,
                            j as int + 1,
                            *m,
                        ));
                    }
                },
                Responder::Mapped(p, c2) => {
                    let mm = p.map(m);
                    proof {
                        assert(self.chans() == pre.chans());
                        assert((c as int) < c2 && (c2 as int) < pre.chans().len());
                        assert(self.chans().len() - c2 < pre.chans().len() - c);
                    }
                    self.send_chan(c2, &mm);
                    proof {
                        let derived = fan_out(pre.chans(), c2 as int, p.map_spec(*m));
                        assert(fan_out_to(pre.chans(), c as int, j as int + 1, *m) =~= done
                            + derived);
                        assert forall|t: int| 0 <= t < pre.logs().len() implies self.logs()[t]
                            == pre.logs()[t] + sent_to(done + derived, t) by {
                            lemma_sent_to_add(done, derived, t);
                            assert(self.logs()[t] == mid.logs()[t] + sent_to(derived, t));
                            assert(pre.logs()[t] + (sent_to(done, t) + sent_to(derived, t)) =~= (
                            pre.logs()[t] + sent_to(done, t)) + sent_to(derived, t));
                        }
                        assert(self.hist() == pre.hist() + (done + derived)) by {
                            assert(mid.hist() == pre.hist() + done);
                            assert(self.hist() == mid.hist() + derived);
                            assert(pre.hist() + (done + derived) =~= (pre.hist() + done)
                                + derived);
                        }
                    }
                },
            }
            j += 1;
        }
        proof {
            assert(fan_out(pre.chans(), c as int, *m) == fan_out_to(
                pre.chans(),
                c as int,
                n as int,
                *m,
            ));
        }
    }
}

/// Carry everything a sink of one graph has received into a graph of
/// another message type: drain the sink and send each message, translated,
/// on the target transmitter, in original order — how a child's view
/// messages cross into a parent's model-message graph.
#[verifier::loop_isolation(false)]
pub fn pump_map<M, N, P, Q, F>(src: &mut Hub<M, P>, s: usize, dst: &mut Hub<N, Q>, tx: &Transmitter, f: &F)
    where
        M: Message,
        N: Message,
        P: Mapper<M>,
        Q: Mapper<N>,
        F: Translate<M, N>,
    requires
        old(src).wf(),
        s < old(src).logs().len(),
        old(dst).wf(),
        tx.chan < old(dst).chans().len(),
    ensures
        final(src).wf(),
        final(src).chans() == old(src).chans(),
        final(src).logs() == old(src).logs().update(s as int, Seq::<M>::empty()),
        final(src).hist() == old(src).hist(),
        final(dst).wf(),
        final(dst).chans() == old(dst).chans(),
        final(dst).logs().len() == old(dst).logs().len(),
        forall|k: int|
            0 <= k < old(dst).logs().len() ==> final(dst).logs()[k] == old(dst).logs()[k]
                + sent_to(
                send_all(
                    old(dst).chans(),
                    tx.chan as int,
                    translate_all(*f, old(src).logs()[s as int]),
                ),
                k,
            ),
        final(dst).hist() == old(dst).hist() + send_all(
            old(dst).chans(),
            tx.chan as int,
            translate_all(*f, old(src).logs()[s as int]),
        ),
{
    let msgs = src.drain(s);
    let ghost ms = translate_all(*f, msgs@);
    let ghost chans = dst.chans();
    proof {
        assert(ms.take(0) =~= Seq::<N>::empty());
        assert(dst.hist() + send_all(chans, tx.chan as int, ms.take(0)) =~= dst.hist());
        assert forall|k: int| 0 <= k < dst.logs().len() implies dst.logs()[k] == old(dst).logs()[k]
            + sent_to(send_all(chans, tx.chan as int, ms.take(0)), k) by {
            assert(sent_to(send_all(chans, tx.chan as int, ms.take(0)), k) =~= Seq::<N>::empty());
            assert(old(dst).logs()[k] + Seq::<N>::empty() =~= old(dst).logs()[k]);
        }
    }
    let mut i: usize = 0;
    while i < msgs.len()
        invariant
            i <= msgs.len(),
            msgs@.len() == ms.len(),
            dst.wf(),
            dst.chans() == chans,
            dst.logs().len() == old(dst).logs().len(),
            forall|k: int|
                0 <= k < old(dst).logs().len() ==> dst.logs()[k] == old(dst).logs()[k] + sent_to(
                    send_all(chans, tx.chan as int, ms.take(i as int)),
                    k,
                ),
            dst.hist() == old(dst).hist() + send_all(chans, tx.chan as int, ms.take(i as int)),
        decreases msgs.len() - i,
    {
        let n = f.translate(&msgs[i]);
        let ghost before = *dst;
        dst.send(tx, &n);
        proof {
            assert(n == ms[i as int]);
            assert(ms.take(i as int + 1).drop_last() =~= ms.take(i as int));
            assert(ms.take(i as int + 1).last() == ms[i as int]);
            let sa = send_all(chans, tx.chan as int, ms.take(i as int));
            let fo = fan_out(chans, tx.chan as int, ms[i as int]);
            assert(send_all(chans, tx.chan as int, ms.take(i as int + 1)) == sa + fo);
            assert(dst.hist() == old(dst).hist() + (sa + fo)) by {
                assert(before.hist() == old(dst).hist() + sa);
                assert(dst.hist() == before.hist() + fo);
                assert(old(dst).hist() + (sa + fo) =~= (old(dst).hist() + sa) + fo);
            }
            assert forall|k: int| 0 <= k < old(dst).logs().len() implies dst.logs()[k] == old(
                dst,
            ).logs()[k] + sent_to(send_all(chans, tx.chan as int, ms.take(i as int + 1)), k) by {
                lemma_sent_to_add(sa, fo, k);
                assert(dst.logs()[k] == before.logs()[k] + sent_to(fo, k));
                assert(old(dst).logs()[k] + (sent_to(sa, k) + sent_to(fo, k)) =~= (old(
                    dst,
                ).logs()[k] + sent_to(sa, k)) + sent_to(fo, k));
            }
        }
        i += 1;
    }
    proof {
        assert(ms.take(msgs@.len() as int) =~= ms);
    }
}

} // verus!
