//! Nodes that reach each other without a network.
use crate::block::BlockView;
use crate::error;
use crate::error::Error;
use crate::gossip::{GossipEnvelope, GossipView};
use crate::model;
use crate::model::Model;
use crate::node::{NodeCore, NodeView};
use crate::relay;
use crate::sorted;
use crate::sorted::Ordered;
use crate::text;
use vstd::prelude::*;

verus! {

/// Nodes, in order of their names.
#[derive(Debug)]
pub struct InMemoryNetwork {
    pub nodes: Vec<(String, NodeCore)>,
}

pub type NetworkView = Seq<(Seq<char>, NodeView)>;

/// A message with the name of the node that sends it.
pub type MessageView = (Seq<char>, GossipView);

impl DeepView for InMemoryNetwork {
    type V = NetworkView;

    open spec fn deep_view(&self) -> NetworkView {
        self.nodes.deep_view()
    }
}

/// A refusal of what may be refused without harm is no failure.
pub open spec fn tolerated(r: Result<(), Seq<char>>, e: GossipView) -> Result<(), Seq<char>> {
    if r is Err && e.is_transaction_like() {
        Ok(())
    } else {
        r
    }
}

/// A message as one node gets it, with what its clock shows.
pub open spec fn deliver_step(message: MessageView) -> spec_fn(NetworkView, (int, Seq<u64>)) -> (
    NetworkView,
    Result<(), Seq<char>>,
) {
    |net: NetworkView, at: (int, Seq<u64>)|
        if net[at.0].0 == message.0 {
            (net, Ok(()))
        } else {
            let (n, r) = net[at.0].1.received(message.1, at.1);
            (net.update(at.0, (net[at.0].0, n)), tolerated(r, message.1))
        }
}

/// The nodes in order, each with what its clock shows.
pub open spec fn clocked(count: nat, clocks: Seq<Seq<u64>>) -> Seq<(int, Seq<u64>)> {
    Seq::new(count, |i: int| (i, clocks[i]))
}

/// The nodes after a message went to all but its sender.
pub open spec fn delivered(net: NetworkView, message: MessageView, clocks: Seq<Seq<u64>>) -> (
    NetworkView,
    Result<(), Seq<char>>,
) {
    relay::run(net, clocked(net.len(), clocks), deliver_step(message))
}

pub open spec fn message_step() -> spec_fn(NetworkView, (MessageView, Seq<Seq<u64>>)) -> (
    NetworkView,
    Result<(), Seq<char>>,
) {
    |net: NetworkView, m: (MessageView, Seq<Seq<u64>>)| delivered(net, m.0, m.1)
}

/// Messages, each with what the clocks show when it is delivered.
pub open spec fn scheduled(messages: Seq<MessageView>, clocks: Seq<Seq<Seq<u64>>>) -> Seq<(MessageView, Seq<Seq<u64>>)> {
    Seq::new(messages.len(), |i: int| (messages[i], clocks[i]))
}

/// The nodes after messages went out.
pub open spec fn all_delivered(net: NetworkView, messages: Seq<MessageView>, clocks: Seq<Seq<Seq<u64>>>) -> (
    NetworkView,
    Result<(), Seq<char>>,
) {
    relay::run(net, scheduled(messages, clocks), message_step())
}

/// What delivering messages may give, whatever the clocks show.
pub open spec fn delivery_gives(
    net: NetworkView,
    messages: Seq<MessageView>,
    after: NetworkView,
    r: Result<(), Seq<char>>,
) -> bool {
    exists|clocks: Seq<Seq<Seq<u64>>>| (after, r) == #[trigger] all_delivered(net, messages, clocks)
}

/// Messages with the name of their sender.
pub open spec fn signed(name: Seq<char>, messages: Seq<GossipView>) -> Seq<MessageView> {
    Seq::new(messages.len(), |i: int| (name, messages[i]))
}

/// The messages that wait to be sent, node by node.
pub open spec fn waiting(net: NetworkView) -> Seq<MessageView>
    decreases net.len(),
{
    if net.len() == 0 {
        Seq::<MessageView>::empty()
    } else {
        waiting(net.drop_last()) + signed(net.last().0, net.last().1.outbox)
    }
}

/// The nodes with nothing left to send.
pub open spec fn emptied(net: NetworkView) -> NetworkView {
    Seq::new(
        net.len(),
        |i: int| (net[i].0, NodeView { outbox: Seq::<GossipView>::empty(), ..net[i].1 }),
    )
}

/// The nodes once each gave its own reveal bundle.
pub open spec fn bundled(net: NetworkView) -> NetworkView {
    Seq::new(net.len(), |i: int| (net[i].0, net[i].1.own_bundle_published().0))
}

/// The messages that tell what waits for a block, node by node.
pub open spec fn mempools(net: NetworkView) -> Seq<MessageView>
    decreases net.len(),
{
    if net.len() == 0 {
        Seq::<MessageView>::empty()
    } else {
        mempools(net.drop_last()) + signed(
            net.last().0,
            net.last().1.own_bundle_published().0.mempool_messages(),
        )
    }
}

/// What sending until nothing is left may give, in so many rounds at most.
pub open spec fn settles(net: NetworkView, rounds: nat, after: NetworkView, r: Result<(), Seq<char>>) -> bool
    decreases rounds,
{
    if rounds == 0 || waiting(net).len() == 0 {
        after == net && r == Ok::<(), Seq<char>>(())
    } else {
        exists|m: NetworkView, sent: Result<(), Seq<char>>| #[trigger]
            delivery_gives(emptied(net), waiting(net), m, sent) && match sent {
                Err(e) => after == m && r == Err::<(), Seq<char>>(e),
                Ok(_) => settles(m, (rounds - 1) as nat, after, r),
            }
    }
}

/// The blocks that a node lacks of another's.
pub open spec fn lacking(from: NodeView, to: NodeView, limit: usize) -> Seq<BlockView> {
    let n = from.ledger.chain.len() as int;
    let first = if to.ledger.height() + 1 < n {
        to.ledger.height() + 1
    } else {
        n
    };
    from.ledger.chain.subrange(
        first,
        if limit < n - first {
            first + limit
        } else {
            n
        },
    )
}

/// What taking blocks from a peer may give.
pub open spec fn sync_gives(
    net: NetworkView,
    from: Seq<char>,
    to: Seq<char>,
    limit: usize,
    after: NetworkView,
    r: Result<bool, Seq<char>>,
) -> bool {
    match (sorted::lookup(net, to), sorted::lookup(net, from)) {
        (None, _) => after == net && r == Err::<bool, Seq<char>>("missing sync target node "@ + to),
        (_, None) => after == net && r == Err::<bool, Seq<char>>("missing sync source node "@ + from),
        (Some(target), Some(source)) => {
            let blocks = lacking(source, target, limit);
            if blocks.len() == 0 {
                after == net && r == Ok::<bool, Seq<char>>(false)
            } else {
                exists|times: Seq<u64>|
                    {
                        let (n, received) = #[trigger] target.received(GossipView::Blocks { blocks }, times);
                        after == sorted::with::<String, NodeView>(net, to, n) && r == match received {
                            Ok(_) => Ok(true),
                            Err(e) => Err(e),
                        }
                    }
            }
        },
    }
}

/// Takes in a message; a refusal of what may be refused without harm is no failure.
pub fn receive_in_memory_envelope(node: &mut NodeCore, envelope: GossipEnvelope) -> (r: Result<(), Error>)
    requires
        old(node).wf(),
        envelope.deep_view().valid(),
    ensures
        final(node).wf(),
        exists|times: Seq<u64>|
            {
                let (n, received) = #[trigger] old(node).deep_view().received(envelope.deep_view(), times);
                final(node).deep_view() == n && error::outcome(r) == tolerated(received, envelope.deep_view())
            },
{
    let harmless = envelope.is_transaction_like();
    match node.receive(envelope) {
        Ok(_) => Ok(()),
        Err(e) => if harmless {
            Ok(())
        } else {
            Err(e)
        },
    }
}

impl Default for InMemoryNetwork {
    fn default() -> (r: Self)
        ensures
            r.wf(),
            r.deep_view() == Seq::<(Seq<char>, NodeView)>::empty(),
    {
        Self::new()
    }
}

impl InMemoryNetwork {
    /// The network is well formed.
    pub open spec fn wf(&self) -> bool {
        &&& sorted::increasing::<String, NodeView>(self.deep_view())
        &&& forall|i: int| 0 <= i < self.nodes@.len() ==> (#[trigger] self.nodes@[i]).1.wf()
    }

    pub fn new() -> (r: Self)
        ensures
            r.wf(),
            r.deep_view() == Seq::<(Seq<char>, NodeView)>::empty(),
    {
        let r = InMemoryNetwork { nodes: Vec::new() };
        assert(r.deep_view() =~= Seq::<(Seq<char>, NodeView)>::empty());
        r
    }

    fn find(&self, id: &str) -> (n: usize)
        requires
            self.wf(),
        ensures
            sorted::place::<String, NodeView>(self.deep_view(), id@, n as int),
    {
        let ghost v = self.deep_view();
        let key = text::text(id);
        let mut i: usize = 0;
        while i < self.nodes.len() && self.nodes[i].0.precedes(&key)
            invariant
                i <= self.nodes.len(),
                v == self.deep_view(),
                sorted::increasing::<String, NodeView>(v),
                key@ == id@,
                forall|j: int| 0 <= j < i ==> <String as Ordered>::before((#[trigger] v[j]).0, id@),
            decreases self.nodes.len() - i,
        {
            i = i + 1;
        }
        proof {
            assert forall|j: int| i <= j < v.len() implies !<String as Ordered>::before((#[trigger] v[j]).0, id@) by {
                if i < j && <String as Ordered>::before(v[j].0, id@) {
                    <String as Ordered>::transitive(v[i as int].0, v[j].0, id@);
                }
            }
        }
        i
    }

    /// The place of a node.
    fn position(&self, id: &str) -> (r: Option<usize>)
        requires
            self.wf(),
        ensures
            match r {
                Some(i) => i < self.nodes@.len() && self.nodes@[i as int].0@ == id@ && sorted::lookup(
                    self.deep_view(),
                    id@,
                ) == Some(self.nodes@[i as int].1.deep_view()) && sorted::place::<String, NodeView>(
                    self.deep_view(),
                    id@,
                    i as int,
                ),
                None => sorted::lookup(self.deep_view(), id@) is None,
            },
    {
        let i: usize = self.find(id);
        proof {
            if self.deep_view().len() > 0 {
                sorted::at_place::<String, NodeView>(self.deep_view(), id@, self.deep_view()[0].1, i as int);
            }
        }
        if i < self.nodes.len() && text::text_eq(self.nodes[i].0.as_str(), id) {
            Some(i)
        } else {
            None
        }
    }

    /// Puts a node in.
    pub fn insert(&mut self, id: &str, node: NodeCore)
        requires
            old(self).wf(),
            node.wf(),
        ensures
            final(self).wf(),
            final(self).deep_view() == sorted::with::<String, NodeView>(old(self).deep_view(), id@, node.deep_view()),
    {
        let ghost v = self.deep_view();
        let ghost n = node.deep_view();
        let i: usize = self.find(id);
        proof {
            sorted::at_place::<String, NodeView>(v, id@, n, i as int);
            sorted::with_increasing::<String, NodeView>(v, id@, n);
        }
        if i < self.nodes.len() && text::text_eq(self.nodes[i].0.as_str(), id) {
            self.nodes.set(i, (text::text(id), node));
            assert(self.deep_view() =~= v.update(i as int, (id@, n)));
        } else {
            self.nodes.insert(i, (text::text(id), node));
            assert(self.deep_view() =~= v.insert(i as int, (id@, n)));
        }
    }

    /// A node by name.
    pub fn node(&self, id: &str) -> (r: Option<&NodeCore>)
        requires
            self.wf(),
        ensures
            match r {
                Some(n) => n.wf() && sorted::lookup(self.deep_view(), id@) == Some(n.deep_view()),
                None => sorted::lookup(self.deep_view(), id@) is None,
            },
    {
        match self.position(id) {
            Some(i) => Some(&self.nodes[i].1),
            None => None,
        }
    }

    /// A node by name, to be changed.
    pub fn node_mut(&mut self, id: &str) -> (r: Option<&mut NodeCore>)
        requires
            old(self).wf(),
        ensures
            r matches Some(n) ==> n.wf() && sorted::lookup(old(self).deep_view(), id@) == Some(n.deep_view()),
            r matches Some(n) ==> final(self).deep_view() =~= sorted::with::<String, NodeView>(
                old(self).deep_view(),
                id@,
                final(n).deep_view(),
            ),
            r matches Some(n) ==> final(n).wf() ==> final(self).wf(),
            r is None ==> sorted::lookup(old(self).deep_view(), id@) is None && final(self).deep_view() == old(
                self,
            ).deep_view() && final(self).wf(),
    {
        let ghost v = self.deep_view();
        match self.position(id) {
            Some(i) => {
                proof {
                    assert forall|w: NodeView| #[trigger]
                        sorted::with::<String, NodeView>(v, id@, w) == v.update(i as int, (id@, w))
                            && sorted::increasing::<String, NodeView>(v.update(i as int, (id@, w))) by {
                        sorted::at_place::<String, NodeView>(v, id@, w, i as int);
                        sorted::with_increasing::<String, NodeView>(v, id@, w);
                    }
                    let before = *self;
                    assert forall|after: InMemoryNetwork|
                        after.nodes@.len() == before.nodes@.len() && after.nodes@[i as int].0
                            == before.nodes@[i as int].0 && after.nodes@[i as int].1.wf() && (forall|j: int|
                            0 <= j < before.nodes@.len() && j != i ==> #[trigger] after.nodes@[j] == before.nodes@[j])
                        implies #[trigger] after.wf() by {
                        let w = after.nodes@[i as int].1.deep_view();
                        assert(after.deep_view() =~= v.update(i as int, (id@, w)));
                        assert(sorted::with::<String, NodeView>(v, id@, w) == v.update(i as int, (id@, w)));
                    }
                }
                Some(&mut self.nodes[i].1)
            },
            None => None,
        }
    }
}

/// A node put in the place of another of the same name leaves the order as it is.
proof fn update_keeps_order(v: NetworkView, i: int, n: NodeView)
    requires
        sorted::increasing::<String, NodeView>(v),
        0 <= i < v.len(),
    ensures
        sorted::increasing::<String, NodeView>(v.update(i, (v[i].0, n))),
{
    let w = v.update(i, (v[i].0, n));
    assert forall|j: int, k: int| 0 <= j < k < w.len() implies <String as Ordered>::before(
        (#[trigger] w[j]).0,
        (#[trigger] w[k]).0,
    ) by {
        assert(<String as Ordered>::before(v[j].0, v[k].0));
    }
}

/// The messages that tell what waits for a block are well formed.
proof fn mempool_messages_are_valid(n: NodeView)
    ensures
        forall|i: int| 0 <= i < n.mempool_messages().len() ==> (#[trigger] n.mempool_messages()[i]).valid(),
{
    reveal(NodeView::mempool_messages);
}

impl InMemoryNetwork {
    /// Brings a message to all nodes but its sender.
    fn deliver(&mut self, from: &str, envelope: &GossipEnvelope) -> (r: Result<(), Error>)
        requires
            old(self).wf(),
            envelope.deep_view().valid(),
        ensures
            final(self).wf(),
            exists|clocks: Seq<Seq<u64>>|
                (final(self).deep_view(), error::outcome(r)) == #[trigger] delivered(
                    old(self).deep_view(),
                    (from@, envelope.deep_view()),
                    clocks,
                ),
    {
        let ghost v = self.deep_view();
        let ghost message = (from@, envelope.deep_view());
        let ghost step = deliver_step(message);
        let ghost mut clocks: Seq<Seq<u64>> = Seq::empty();
        let mut i: usize = 0;
        proof {
            assert(clocked(0, clocks) =~= Seq::<(int, Seq<u64>)>::empty());
        }
        while i < self.nodes.len()
            invariant
                i <= self.nodes.len(),
                self.wf(),
                v == old(self).deep_view(),
                self.nodes.len() == v.len(),
                message == (from@, envelope.deep_view()),
                envelope.deep_view().valid(),
                step == deliver_step(message),
                clocks.len() == i,
                (self.deep_view(), Ok::<(), Seq<char>>(())) == relay::run(v, clocked(i as nat, clocks), step),
            decreases self.nodes.len() - i,
        {
            let ghost net = self.deep_view();
            if text::text_eq(self.nodes[i].0.as_str(), from) {
                proof {
                    run_one_more(v, clocks, Seq::<u64>::empty(), step, i as nat);
                    clocks = clocks.push(Seq::<u64>::empty());
                }
            } else {
                let ghost n = self.nodes@[i as int].1.deep_view();
                let r = receive_in_memory_envelope(&mut self.nodes[i].1, envelope.duplicate());
                let ghost m = self.nodes@[i as int].1.deep_view();
                proof {
                    let times = choose|times: Seq<u64>|
                        {
                            let (after, received) = #[trigger] n.received(message.1, times);
                            m == after && error::outcome(r) == tolerated(received, message.1)
                        };
                    assert(self.deep_view() =~= net.update(i as int, (net[i as int].0, m)));
                    update_keeps_order(net, i as int, m);
                    run_one_more(v, clocks, times, step, i as nat);
                    clocks = clocks.push(times);
                    assert((self.deep_view(), error::outcome(r)) == relay::run(
                        v,
                        clocked((i + 1) as nat, clocks),
                        step,
                    ));
                }
                match r {
                    Ok(_) => {},
                    Err(e) => {
                        proof {
                            let all = clocks + Seq::new((v.len() - i - 1) as nat, |k: int| Seq::<u64>::empty());
                            assert(clocked(v.len(), all).take(i + 1) =~= clocked((i + 1) as nat, clocks));
                            relay::run_stops(v, clocked(v.len(), all), step, i + 1);
                            assert(delivered(v, message, all) == (self.deep_view(), Err::<(), Seq<char>>(e.deep_view())));
                        }
                        return Err(e);
                    },
                }
            }
            i = i + 1;
        }
        proof {
            assert(delivered(v, message, clocks) == (self.deep_view(), Ok::<(), Seq<char>>(())));
        }
        Ok(())
    }

    /// Brings messages to all nodes but their senders.
    fn deliver_all(&mut self, messages: &Vec<(String, GossipEnvelope)>) -> (r: Result<(), Error>)
        requires
            old(self).wf(),
            forall|i: int| 0 <= i < messages@.len() ==> (#[trigger] messages@[i]).1.deep_view().valid(),
        ensures
            final(self).wf(),
            delivery_gives(
                old(self).deep_view(),
                messages.deep_view(),
                final(self).deep_view(),
                error::outcome(r),
            ),
    {
        let ghost v = self.deep_view();
        let ghost m = messages.deep_view();
        let ghost step = message_step();
        let ghost mut clocks: Seq<Seq<Seq<u64>>> = Seq::empty();
        let mut i: usize = 0;
        proof {
            assert(scheduled(m.take(0), clocks) =~= Seq::<(MessageView, Seq<Seq<u64>>)>::empty());
        }
        while i < messages.len()
            invariant
                i <= messages.len(),
                self.wf(),
                v == old(self).deep_view(),
                m == messages.deep_view(),
                forall|i: int| 0 <= i < messages@.len() ==> (#[trigger] messages@[i]).1.deep_view().valid(),
                step == message_step(),
                clocks.len() == i,
                (self.deep_view(), Ok::<(), Seq<char>>(())) == relay::run(
                    v,
                    scheduled(m.take(i as int), clocks),
                    step,
                ),
            decreases messages.len() - i,
        {
            let ghost net = self.deep_view();
            let r = self.deliver(messages[i].0.as_str(), &messages[i].1);
            proof {
                let clock = choose|clock: Seq<Seq<u64>>|
                    (self.deep_view(), error::outcome(r)) == #[trigger] delivered(net, m[i as int], clock);
                let next = clocks.push(clock);
                let items = scheduled(m.take(i + 1), next);
                assert(items.drop_last() =~= scheduled(m.take(i as int), clocks));
                assert(items.last() == (m[i as int], clock));
                clocks = next;
                assert((self.deep_view(), error::outcome(r)) == relay::run(v, items, step));
            }
            match r {
                Ok(_) => {},
                Err(e) => {
                    proof {
                        let all = clocks + Seq::new((m.len() - i - 1) as nat, |k: int| Seq::<Seq<u64>>::empty());
                        assert(scheduled(m, all).take(i + 1) =~= scheduled(m.take(i + 1), clocks));
                        relay::run_stops(v, scheduled(m, all), step, i + 1);
                        assert(all_delivered(v, m, all) == (self.deep_view(), Err::<(), Seq<char>>(e.deep_view())));
                    }
                    return Err(e);
                },
            }
            i = i + 1;
        }
        proof {
            model::take_all(m);
            assert(all_delivered(v, m, clocks) == (self.deep_view(), Ok::<(), Seq<char>>(())));
        }
        Ok(())
    }

    /// Takes the messages out that wait to be sent.
    fn drain(&mut self) -> (r: Vec<(String, GossipEnvelope)>)
        requires
            old(self).wf(),
        ensures
            final(self).wf(),
            final(self).deep_view() == emptied(old(self).deep_view()),
            r.deep_view() == waiting(old(self).deep_view()),
            forall|i: int| 0 <= i < r@.len() ==> (#[trigger] r@[i]).1.deep_view().valid(),
    {
        let ghost v = self.deep_view();
        let mut out: Vec<(String, GossipEnvelope)> = Vec::new();
        let mut i: usize = 0;
        proof {
            model::take_all(v);
            assert(emptied(v.take(0)) + v.skip(0) =~= v);
            assert(out.deep_view() =~= Seq::<MessageView>::empty());
        }
        while i < self.nodes.len()
            invariant
                i <= self.nodes.len(),
                self.wf(),
                v == old(self).deep_view(),
                self.nodes.len() == v.len(),
                self.deep_view() == emptied(v.take(i as int)) + v.skip(i as int),
                out.deep_view() == waiting(v.take(i as int)),
                forall|k: int| 0 <= k < out@.len() ==> (#[trigger] out@[k]).1.deep_view().valid(),
            decreases self.nodes.len() - i,
        {
            let ghost net = self.deep_view();
            proof {
                assert(net[i as int] == v[i as int]);
                assert(v.take(i + 1).drop_last() =~= v.take(i as int));
                assert(v.take(i + 1).last() == v[i as int]);
            }
            let sender = self.nodes[i].0.clone();
            let sent = self.nodes[i].1.drain_outbox();
            let ghost n = self.nodes@[i as int].1.deep_view();
            assert forall|k: int| 0 <= k < sent@.len() implies (#[trigger] sent@[k]).deep_view().valid() by {
                assert(sent@[k].deep_view() == v[i as int].1.outbox[k]);
            }
            proof {
                assert(self.deep_view() =~= net.update(i as int, (net[i as int].0, n)));
                update_keeps_order(net, i as int, n);
                assert(self.deep_view() =~= emptied(v.take(i + 1)) + v.skip(i + 1));
            }
            tag(&mut out, sender.as_str(), &sent);
            i = i + 1;
        }
        proof {
            model::take_all(v);
            assert(emptied(v) + v.skip(v.len() as int) =~= emptied(v));
        }
        out
    }

    /// Sends what waits, until nothing is left.
    pub fn deliver_until_idle(&mut self) -> (r: Result<(), Error>)
        requires
            old(self).wf(),
        ensures
            final(self).wf(),
            settles(old(self).deep_view(), u64::MAX as nat, final(self).deep_view(), error::outcome(r)),
    {
        let ghost v = self.deep_view();
        let mut left: u64 = u64::MAX;
        while left > 0
            invariant
                self.wf(),
                v == old(self).deep_view(),
                forall|after: NetworkView, r: Result<(), Seq<char>>| #[trigger]
                    settles(self.deep_view(), left as nat, after, r) ==> settles(v, u64::MAX as nat, after, r),
            decreases left,
        {
            let ghost net = self.deep_view();
            let ghost next = (left - 1) as nat;
            let messages = self.drain();
            if messages.len() == 0 {
                proof {
                    nothing_to_empty(net);
                    assert(settles(net, left as nat, net, Ok(())));
                }
                return Ok(());
            }
            let r = self.deliver_all(&messages);
            let ghost sent = error::outcome(r);
            let ghost m = self.deep_view();
            assert(delivery_gives(emptied(net), waiting(net), m, sent));
            match r {
                Err(e) => {
                    assert(settles(net, left as nat, m, Err(e.deep_view())));
                    return Err(e);
                },
                Ok(_) => {},
            }
            proof {
                assert forall|after: NetworkView, r: Result<(), Seq<char>>| #[trigger]
                    settles(m, next, after, r) implies settles(v, u64::MAX as nat, after, r) by {
                    assert(settles(net, left as nat, after, r));
                }
            }
            left = left - 1;
            assert(left as nat == next);
        }
        assert(settles(self.deep_view(), 0, self.deep_view(), Ok(())));
        Ok(())
    }

    /// Every node tells the others once what waits for a block.
    pub fn gossip_mempools_once(&mut self) -> (r: Result<(), Error>)
        requires
            old(self).wf(),
        ensures
            final(self).wf(),
            delivery_gives(
                bundled(old(self).deep_view()),
                mempools(old(self).deep_view()),
                final(self).deep_view(),
                error::outcome(r),
            ),
    {
        let ghost v = self.deep_view();
        let mut out: Vec<(String, GossipEnvelope)> = Vec::new();
        let mut i: usize = 0;
        proof {
            model::take_all(v);
            assert(bundled(v.take(0)) + v.skip(0) =~= v);
            assert(out.deep_view() =~= Seq::<MessageView>::empty());
        }
        while i < self.nodes.len()
            invariant
                i <= self.nodes.len(),
                self.wf(),
                v == old(self).deep_view(),
                self.nodes.len() == v.len(),
                self.deep_view() == bundled(v.take(i as int)) + v.skip(i as int),
                out.deep_view() == mempools(v.take(i as int)),
                forall|k: int| 0 <= k < out@.len() ==> (#[trigger] out@[k]).1.deep_view().valid(),
            decreases self.nodes.len() - i,
        {
            let ghost net = self.deep_view();
            proof {
                assert(net[i as int] == v[i as int]);
                assert(v.take(i + 1).drop_last() =~= v.take(i as int));
                assert(v.take(i + 1).last() == v[i as int]);
            }
            let sender = self.nodes[i].0.clone();
            let sent = self.nodes[i].1.mempool_gossip();
            let ghost n = self.nodes@[i as int].1.deep_view();
            proof {
                assert(self.deep_view() =~= net.update(i as int, (net[i as int].0, n)));
                update_keeps_order(net, i as int, n);
                assert(self.deep_view() =~= bundled(v.take(i + 1)) + v.skip(i + 1));
                mempool_messages_are_valid(n);
            }
            assert forall|k: int| 0 <= k < sent@.len() implies (#[trigger] sent@[k]).deep_view().valid() by {
                assert(sent.deep_view()[k].valid());
            }
            tag(&mut out, sender.as_str(), &sent);
            i = i + 1;
        }
        proof {
            model::take_all(v);
            assert(bundled(v) + v.skip(v.len() as int) =~= bundled(v));
        }
        self.deliver_all(&out)
    }

    /// Brings blocks to a node that another has above its height, and says whether there were any.
    pub fn sync_node_from_peer(&mut self, from: &str, to: &str, limit: usize) -> (r: Result<bool, Error>)
        requires
            old(self).wf(),
        ensures
            final(self).wf(),
            sync_gives(old(self).deep_view(), from@, to@, limit, final(self).deep_view(), error::outcome(r)),
    {
        let ghost net = self.deep_view();
        let target: usize = match self.position(to) {
            Some(i) => i,
            None => {
                let mut message = text::text("missing sync target node ");
                message.append(to);
                return Err(Error::of(message));
            },
        };
        let source: usize = match self.position(from) {
            Some(i) => i,
            None => {
                let mut message = text::text("missing sync source node ");
                message.append(from);
                return Err(Error::of(message));
            },
        };
        let ghost t = self.nodes@[target as int].1.deep_view();
        let from_height: u64 = self.nodes[target].1.chain_height() + 1;
        let blocks = self.nodes[source].1.blocks_from(from_height, limit);
        assert(blocks.deep_view() == lacking(self.nodes@[source as int].1.deep_view(), t, limit));
        if blocks.len() == 0 {
            return Ok(false);
        }
        let ghost b = blocks.deep_view();
        let received = self.nodes[target].1.receive(GossipEnvelope::Blocks { blocks });
        let ghost n = self.nodes@[target as int].1.deep_view();
        proof {
            let times = choose|times: Seq<u64>|
                times.len() == relay::clock_reads(GossipView::Blocks { blocks: b }) && (n, error::outcome(received))
                    == #[trigger] t.received(GossipView::Blocks { blocks: b }, times);
            assert(self.deep_view() =~= net.update(target as int, (to@, n)));
            update_keeps_order(net, target as int, n);
            sorted::at_place::<String, NodeView>(net, to@, n, target as int);
            assert((n, error::outcome(received)) == t.received(GossipView::Blocks { blocks: b }, times));
        }
        match received {
            Ok(_) => Ok(true),
            Err(e) => Err(e),
        }
    }
}

/// One more node gets a message.
proof fn run_one_more(
    v: NetworkView,
    clocks: Seq<Seq<u64>>,
    times: Seq<u64>,
    step: spec_fn(NetworkView, (int, Seq<u64>)) -> (NetworkView, Result<(), Seq<char>>),
    i: nat,
)
    requires
        clocks.len() == i,
        relay::run(v, clocked(i, clocks), step).1 is Ok,
    ensures
        relay::run(v, clocked(i + 1, clocks.push(times)), step) == step(
            relay::run(v, clocked(i, clocks), step).0,
            (i as int, times),
        ),
{
    let items = clocked(i + 1, clocks.push(times));
    assert(items.drop_last() =~= clocked(i, clocks));
    assert(items.last() == (i as int, times));
}

/// Nodes that have nothing to send are as they are once emptied.
proof fn nothing_to_empty(net: NetworkView)
    requires
        waiting(net).len() == 0,
    ensures
        emptied(net) == net,
    decreases net.len(),
{
    if net.len() > 0 {
        nothing_to_empty(net.drop_last());
        assert(signed(net.last().0, net.last().1.outbox).len() == net.last().1.outbox.len());
        assert(net.last().1.outbox =~= Seq::<GossipView>::empty());
        assert forall|i: int| 0 <= i < net.len() implies #[trigger] emptied(net)[i] == net[i] by {
            if i < net.len() - 1 {
                assert(emptied(net.drop_last())[i] == net.drop_last()[i]);
            }
        }
    }
    assert(emptied(net) =~= net);
}

/// Puts the name of their sender on messages.
fn tag(out: &mut Vec<(String, GossipEnvelope)>, sender: &str, messages: &Vec<GossipEnvelope>)
    requires
        forall|k: int| 0 <= k < old(out)@.len() ==> (#[trigger] old(out)@[k]).1.deep_view().valid(),
        forall|k: int| 0 <= k < messages@.len() ==> (#[trigger] messages@[k]).deep_view().valid(),
    ensures
        final(out).deep_view() == old(out).deep_view() + signed(sender@, messages.deep_view()),
        forall|k: int| 0 <= k < final(out)@.len() ==> (#[trigger] final(out)@[k]).1.deep_view().valid(),
{
    let ghost before = out.deep_view();
    let ghost v = messages.deep_view();
    let mut i: usize = 0;
    assert(before + signed(sender@, v.take(0)) =~= before);
    while i < messages.len()
        invariant
            i <= messages.len(),
            v == messages.deep_view(),
            forall|k: int| 0 <= k < out@.len() ==> (#[trigger] out@[k]).1.deep_view().valid(),
            forall|k: int| 0 <= k < messages@.len() ==> (#[trigger] messages@[k]).deep_view().valid(),
            out.deep_view() == before + signed(sender@, v.take(i as int)),
        decreases messages.len() - i,
    {
        let ghost now = out.deep_view();
        let item = (text::text(sender), messages[i].duplicate());
        assert(messages@[i as int].deep_view().valid());
        out.push(item);
        assert(out.deep_view() =~= now.push((sender@, v[i as int])));
        assert(out.deep_view() =~= before + signed(sender@, v.take(i + 1)));
        i = i + 1;
    }
    assert(v.take(v.len() as int) =~= v);
}

} // verus!
