use vstd::prelude::*;

verus! {

/// Capacity of the event queue between the multiplexer and its consumer.
pub const INPUT_CHANNEL_CAPACITY: usize = 8;

/// Supported input events.
#[derive(Debug, Clone, Copy, PartialEq, Eq, Structural)]
pub enum InputEvent {
    Up,
    Down,
    Enter,
    Back,
    IncrementVolume,
    DecrementVolume,
}

/// Binds one edge-detectable input to the event it stands for; the line
/// itself is waited on outside this library.
#[derive(Debug, Clone, Copy, PartialEq, Eq, Structural)]
pub struct Button {
    pub event: InputEvent,
}

impl Button {
    /// A button that reports `event`.
    pub fn new(event: InputEvent) -> (r: Button)
        ensures
            r.event == event,
    {
        Button { event }
    }

    /// The event reported once this button's falling edge has been seen.
    pub fn poll(&self) -> (r: InputEvent)
        ensures
            r == self.event,
    {
        self.event
    }
}

/// What the multiplexer's contracts speak of.
pub struct MuxModel {
    /// The event of each source, in declaration order.
    pub tags: Seq<InputEvent>,
    /// Sources whose edge has fired and not yet been taken.
    pub latched: Seq<bool>,
    /// The event whose push waits for room in the queue.
    pub held: Option<InputEvent>,
    /// Queued events, oldest first.
    pub queue: Seq<InputEvent>,
}

/// Events that have been taken from their sources and not yet received, in
/// the order they were taken.
pub open spec fn in_flight(m: MuxModel) -> Seq<InputEvent> {
    match m.held {
        Some(e) => m.queue.push(e),
        None => m.queue,
    }
}

/// Whether some source has a fired edge waiting.
pub open spec fn any_latched(m: MuxModel) -> bool {
    exists|i: int| 0 <= i < m.latched.len() && m.latched[i]
}

/// The first source, in declaration order, with a fired edge waiting.
pub open spec fn first_latched(m: MuxModel) -> int
    recommends
        any_latched(m),
{
    choose|i: int|
        0 <= i < m.latched.len() && m.latched[i] && forall|j: int| 0 <= j < i ==> !m.latched[j]
}

/// A fired source with no fired source before it is the first one.
pub proof fn lemma_first_latched(m: MuxModel, i: int)
    requires
        0 <= i < m.latched.len(),
        m.latched[i],
        forall|j: int| 0 <= j < i ==> !m.latched[j],
    ensures
        any_latched(m),
        first_latched(m) == i,
{
    assert(0 <= i < m.latched.len() && m.latched[i]);
    let c = first_latched(m);
    assert(0 <= c < m.latched.len() && m.latched[c] && forall|j: int| 0 <= j < c ==> !m.latched[j]);
    if c < i {
        assert(!m.latched[c]);
    } else if c > i {
        assert(!m.latched[i]);
    }
}

/// One pass of the producer loop. A held event is pushed once there is room.
/// Otherwise the first source with a fired edge wins; its edge is taken and
/// its event pushed, or held when the queue is full. With nothing waiting the
/// loop keeps waiting.
pub open spec fn stepped(m: MuxModel) -> MuxModel {
    match m.held {
        Some(e) => if m.queue.len() < INPUT_CHANNEL_CAPACITY {
            MuxModel { held: None, queue: m.queue.push(e), ..m }
        } else {
            m
        },
        None => if any_latched(m) {
            let i = first_latched(m);
            let latched = m.latched.update(i, false);
            if m.queue.len() < INPUT_CHANNEL_CAPACITY {
                MuxModel { latched, queue: m.queue.push(m.tags[i]), ..m }
            } else {
                MuxModel { latched, held: Some(m.tags[i]), ..m }
            }
        } else {
            m
        },
    }
}

/// Fires the edge of `source`.
pub open spec fn fired(m: MuxModel, source: int) -> MuxModel {
    MuxModel { latched: m.latched.update(source, true), ..m }
}

/// Well-formed states: one latch per source and the queue within capacity.
pub open spec fn mux_wf(m: MuxModel) -> bool {
    &&& m.latched.len() == m.tags.len()
    &&& m.queue.len() <= INPUT_CHANNEL_CAPACITY
}

/// One move of a run of the multiplexer; the producer then makes one pass.
pub enum MuxOp {
    /// The edge of this source fires.
    Fire(int),
    /// The consumer receives.
    Receive,
}

/// The state after the consumer takes the oldest queued event, if any.
pub open spec fn received(m: MuxModel) -> MuxModel {
    if m.queue.len() > 0 {
        MuxModel { queue: m.queue.drop_first(), ..m }
    } else {
        m
    }
}

/// One move followed by one pass of the producer.
pub open spec fn applied(m: MuxModel, op: MuxOp) -> MuxModel {
    match op {
        MuxOp::Fire(s) => stepped(fired(m, s)),
        MuxOp::Receive => stepped(received(m)),
    }
}

/// The state after the moves `ops`, in turn.
pub open spec fn run(m: MuxModel, ops: Seq<MuxOp>) -> MuxModel
    decreases ops.len(),
{
    if ops.len() == 0 {
        m
    } else {
        applied(run(m, ops.drop_last()), ops.last())
    }
}

/// The events the consumer receives during the moves `ops`, in order.
pub open spec fn delivered(m: MuxModel, ops: Seq<MuxOp>) -> Seq<InputEvent>
    decreases ops.len(),
{
    if ops.len() == 0 {
        Seq::empty()
    } else {
        let p = run(m, ops.drop_last());
        delivered(m, ops.drop_last()) + if ops.last() is Receive && p.queue.len() > 0 {
            seq![p.queue[0]]
        } else {
            Seq::empty()
        }
    }
}

/// The events of the edges fired during the moves `ops`, in firing order.
pub open spec fn fired_events(tags: Seq<InputEvent>, ops: Seq<MuxOp>) -> Seq<InputEvent>
    decreases ops.len(),
{
    if ops.len() == 0 {
        Seq::empty()
    } else {
        fired_events(tags, ops.drop_last()) + match ops.last() {
            MuxOp::Fire(s) => seq![tags[s]],
            MuxOp::Receive => Seq::empty(),
        }
    }
}

/// Every edge of `ops` fires apart from the others: the producer is not
/// suspended when it fires.
pub open spec fn fired_apart_in(m: MuxModel, ops: Seq<MuxOp>) -> bool
    decreases ops.len(),
{
    if ops.len() == 0 {
        true
    } else {
        &&& fired_apart_in(m, ops.drop_last())
        &&& ops.last() is Fire ==> run(m, ops.drop_last()).held is None
    }
}

/// Every edge of `ops` is of one of the first `n` sources.
pub open spec fn sources_within(n: int, ops: Seq<MuxOp>) -> bool
    decreases ops.len(),
{
    if ops.len() == 0 {
        true
    } else {
        &&& sources_within(n, ops.drop_last())
        &&& ops.last() matches MuxOp::Fire(s) ==> 0 <= s < n
    }
}

/// Whatever the consumer does in between, edges that fire apart reach the
/// consumer exactly once each and in firing order: what it has received,
/// followed by what is still in flight, is what was in flight at the start
/// followed by the events of the fired edges. No edge is left waiting, and
/// the producer is suspended only on a full queue.
pub proof fn lemma_edges_reach_consumer_in_order(m: MuxModel, ops: Seq<MuxOp>)
    requires
        mux_wf(m),
        !any_latched(m),
        m.held is Some ==> m.queue.len() == INPUT_CHANNEL_CAPACITY,
        sources_within(m.tags.len() as int, ops),
        fired_apart_in(m, ops),
    ensures
        mux_wf(run(m, ops)),
        run(m, ops).tags == m.tags,
        !any_latched(run(m, ops)),
        run(m, ops).held is Some ==> run(m, ops).queue.len() == INPUT_CHANNEL_CAPACITY,
        delivered(m, ops) + in_flight(run(m, ops)) == in_flight(m) + fired_events(m.tags, ops),
    decreases ops.len(),
{
    if ops.len() == 0 {
        assert(Seq::<InputEvent>::empty() + in_flight(m) =~= in_flight(m) + Seq::<InputEvent>::empty());
    } else {
        let init = ops.drop_last();
        lemma_edges_reach_consumer_in_order(m, init);
        let p = run(m, init);
        let d = delivered(m, init);
        let fe = fired_events(m.tags, init);
        assert(d + in_flight(p) == in_flight(m) + fe);
        match ops.last() {
            MuxOp::Fire(s) => {
                lemma_fire_apart_step(p, s);
                let x = m.tags[s];
                assert(delivered(m, ops) =~= d);
                assert(fired_events(m.tags, ops) =~= fe + seq![x]);
                assert(d + in_flight(p).push(x) =~= (d + in_flight(p)).push(x));
                assert((in_flight(m) + fe).push(x) =~= in_flight(m) + (fe + seq![x]));
            },
            MuxOp::Receive => {
                lemma_receive_step(p);
                assert(fired_events(m.tags, ops) =~= fe);
                if p.queue.len() > 0 {
                    let x = p.queue[0];
                    assert(delivered(m, ops) =~= d + seq![x]);
                    assert(in_flight(p) =~= seq![x] + in_flight(p).drop_first());
                    assert((d + seq![x]) + in_flight(p).drop_first() =~= d + in_flight(p));
                } else {
                    assert(delivered(m, ops) =~= d);
                }
            },
        }
    }
}

/// An edge that fires while the producer waits for edges is taken at once:
/// its event joins those in flight.
proof fn lemma_fire_apart_step(p: MuxModel, s: int)
    requires
        mux_wf(p),
        !any_latched(p),
        p.held is None,
        0 <= s < p.tags.len(),
    ensures
        mux_wf(stepped(fired(p, s))),
        stepped(fired(p, s)).tags == p.tags,
        !any_latched(stepped(fired(p, s))),
        stepped(fired(p, s)).held is Some ==> stepped(fired(p, s)).queue.len() == INPUT_CHANNEL_CAPACITY,
        in_flight(stepped(fired(p, s))) == in_flight(p).push(p.tags[s]),
{
    let f = fired(p, s);
    assert forall|j: int| 0 <= j < s implies !f.latched[j] by {
        assert(f.latched[j] == p.latched[j]);
        if p.latched[j] {
            assert(any_latched(p));
        }
    }
    lemma_first_latched(f, s);
    let q = stepped(f);
    assert(q.latched =~= p.latched) by {
        assert forall|j: int| 0 <= j < q.latched.len() implies q.latched[j] == p.latched[j] by {
            if j == s && p.latched[j] {
                assert(any_latched(p));
            }
        }
    }
    assert(in_flight(q) =~= in_flight(p).push(p.tags[s]));
}

/// A receive takes the oldest event in flight, and the producer's next pass
/// moves a held event into the freed slot.
proof fn lemma_receive_step(p: MuxModel)
    requires
        mux_wf(p),
        !any_latched(p),
        p.held is Some ==> p.queue.len() == INPUT_CHANNEL_CAPACITY,
    ensures
        mux_wf(stepped(received(p))),
        stepped(received(p)).tags == p.tags,
        !any_latched(stepped(received(p))),
        stepped(received(p)).held is Some ==> stepped(received(p)).queue.len() == INPUT_CHANNEL_CAPACITY,
        p.queue.len() > 0 ==> in_flight(stepped(received(p))) == in_flight(p).drop_first(),
        p.queue.len() == 0 ==> stepped(received(p)) == p,
{
    let r = received(p);
    if p.queue.len() > 0 {
        assert(in_flight(r) =~= in_flight(p).drop_first());
        assert(in_flight(stepped(r)) =~= in_flight(r));
        assert(stepped(r).held is None);
    }
}

/// With the queue full, two more edges lose nothing: the first push is held
/// and the second edge waits; once the consumer has taken two events both
/// are queued, after the events already there and in firing order.
pub proof fn lemma_full_queue_keeps_later_edges(m: MuxModel, a: int, b: int)
    requires
        mux_wf(m),
        !any_latched(m),
        m.held is None,
        m.queue.len() == INPUT_CHANNEL_CAPACITY,
        0 <= a < m.tags.len(),
        0 <= b < m.tags.len(),
    ensures
        ({
            let ops = seq![MuxOp::Fire(a), MuxOp::Fire(b), MuxOp::Receive, MuxOp::Receive];
            &&& run(m, ops.take(1)).held == Some(m.tags[a])
            &&& run(m, ops.take(2)).held == Some(m.tags[a])
            &&& run(m, ops.take(2)).queue == m.queue
            &&& delivered(m, ops) == m.queue.take(2)
            &&& run(m, ops).queue == m.queue.skip(2) + seq![m.tags[a], m.tags[b]]
            &&& run(m, ops).held is None
            &&& !any_latched(run(m, ops))
        }),
{
    let ops = seq![MuxOp::Fire(a), MuxOp::Fire(b), MuxOp::Receive, MuxOp::Receive];
    let o1 = ops.take(1);
    let o2 = ops.take(2);
    let o3 = ops.take(3);
    assert(o1.drop_last() =~= Seq::<MuxOp>::empty());
    assert(o2.drop_last() =~= o1);
    assert(o3.drop_last() =~= o2);
    assert(ops.drop_last() =~= o3);
    assert(o1.last() == MuxOp::Fire(a));
    assert(o2.last() == MuxOp::Fire(b));
    assert(o3.last() == MuxOp::Receive);
    assert(ops.last() == MuxOp::Receive);
    assert(run(m, o1.drop_last()) == m);
    assert(delivered(m, o1.drop_last()) == Seq::<InputEvent>::empty());
    lemma_fire_apart_step(m, a);
    let s1 = run(m, o1);
    assert(s1 == stepped(fired(m, a)));
    assert(s1.queue == m.queue && s1.held == Some(m.tags[a]));
    let s2 = run(m, o2);
    assert(s2 == fired(s1, b));
    let s3 = run(m, o3);
    assert(s3.queue =~= m.queue.drop_first().push(m.tags[a]));
    assert(s3.held is None);
    assert(s3.latched == s2.latched);
    let r3 = received(s3);
    assert(r3.latched[b]);
    assert forall|j: int| 0 <= j < b implies !r3.latched[j] by {
        assert(r3.latched[j] == m.latched[j]);
        if m.latched[j] {
            assert(any_latched(m));
        }
    }
    lemma_first_latched(r3, b);
    let s4 = run(m, ops);
    assert(s4.queue =~= m.queue.skip(2) + seq![m.tags[a], m.tags[b]]);
    assert(s4.latched =~= m.latched) by {
        assert forall|j: int| 0 <= j < s4.latched.len() implies s4.latched[j] == m.latched[j] by {
            if j == b && m.latched[j] {
                assert(any_latched(m));
            }
        }
    }
    assert(delivered(m, o1) =~= Seq::<InputEvent>::empty());
    assert(delivered(m, o2) =~= Seq::<InputEvent>::empty());
    assert(delivered(m, o3) =~= seq![m.queue[0]]);
    assert(delivered(m, ops) =~= m.queue.take(2));
}

/// Fans in edges from several sources into one bounded queue of events.
pub struct InputMultiplexer {
    tags: Vec<InputEvent>,
    latched: Vec<bool>,
    held: Option<InputEvent>,
    queue: Vec<InputEvent>,
}

impl View for InputMultiplexer {
    type V = MuxModel;

    closed spec fn view(&self) -> MuxModel {
        MuxModel { tags: self.tags@, latched: self.latched@, held: self.held, queue: self.queue@ }
    }
}

impl InputMultiplexer {
    /// A multiplexer over `buttons`, in declaration order, with nothing fired.
    pub fn new(buttons: &Vec<Button>) -> (r: InputMultiplexer)
        ensures
            mux_wf(r@),
            r@.tags == Seq::new(buttons@.len(), |i: int| buttons@[i].event),
            r@.latched == Seq::new(buttons@.len(), |i: int| false),
            r@.held is None,
            r@.queue == Seq::<InputEvent>::empty(),
    {
        let mut tags: Vec<InputEvent> = Vec::new();
        let mut latched: Vec<bool> = Vec::new();
        let mut i: usize = 0;
        while i < buttons.len()
            invariant
                i <= buttons@.len(),
                tags@ == Seq::new(i as nat, |k: int| buttons@[k].event),
                latched@ == Seq::new(i as nat, |k: int| false),
            decreases buttons@.len() - i,
        {
            tags.push(buttons[i].poll());
            latched.push(false);
            proof {
                assert(tags@ =~= Seq::new(i as nat + 1, |k: int| buttons@[k].event));
                assert(latched@ =~= Seq::new(i as nat + 1, |k: int| false));
            }
            i = i + 1;
        }
        InputMultiplexer { tags, latched, held: None, queue: Vec::new() }
    }

    /// Number of sources.
    pub fn sources(&self) -> (r: usize)
        ensures
            r == self@.tags.len(),
    {
        self.tags.len()
    }

    /// Whether the producer is suspended on a full queue.
    pub fn is_suspended(&self) -> (r: bool)
        ensures
            r == self@.held is Some,
    {
        self.held.is_some()
    }

    /// Number of events waiting for the consumer.
    pub fn queued(&self) -> (r: usize)
        ensures
            r == self@.queue.len(),
    {
        self.queue.len()
    }

    /// Records that `source` saw a falling edge.
    pub fn edge(&mut self, source: usize)
        requires
            mux_wf(old(self)@),
            source < old(self)@.tags.len(),
        ensures
            mux_wf(final(self)@),
            final(self)@ == fired(old(self)@, source as int),
    {
        self.latched.set(source, true);
    }

    /// One pass of the producer loop, as `stepped` states it. Returns the
    /// event pushed into the queue, if any.
    pub fn step(&mut self) -> (r: Option<InputEvent>)
        requires
            mux_wf(old(self)@),
        ensures
            mux_wf(final(self)@),
            final(self)@ == stepped(old(self)@),
            r == (if final(self)@.queue.len() > old(self)@.queue.len() {
                Some(final(self)@.queue.last())
            } else {
                None
            }),
    {
        match self.held {
            Some(e) => {
                if self.queue.len() < INPUT_CHANNEL_CAPACITY {
                    self.queue.push(e);
                    self.held = None;
                    Some(e)
                } else {
                    None
                }
            },
            None => {
                let mut i: usize = 0;
                while i < self.latched.len() && !self.latched[i]
                    invariant
                        i <= self.latched@.len(),
                        forall|j: int| 0 <= j < i ==> !self.latched@[j],
                    decreases self.latched@.len() - i,
                {
                    i = i + 1;
                }
                if i == self.latched.len() {
                    return None;
                }
                proof {
                    lemma_first_latched(self@, i as int);
                }
                let e = self.tags[i];
                self.latched.set(i, false);
                if self.queue.len() < INPUT_CHANNEL_CAPACITY {
                    self.queue.push(e);
                    Some(e)
                } else {
                    self.held = Some(e);
                    None
                }
            },
        }
    }

    /// The oldest queued event, removed from the queue; `None` when empty.
    pub fn receive(&mut self) -> (r: Option<InputEvent>)
        requires
            mux_wf(old(self)@),
        ensures
            mux_wf(final(self)@),
            final(self)@ == received(old(self)@),
            old(self)@.queue.len() == 0 ==> r is None && final(self)@ == old(self)@,
            old(self)@.queue.len() > 0 ==> r == Some(old(self)@.queue[0]) && final(self)@ == (MuxModel {
                queue: old(self)@.queue.drop_first(),
                ..old(self)@
            }),
            old(self)@.queue.len() > 0 ==> in_flight(final(self)@) == in_flight(old(self)@).drop_first(),
    {
        if self.queue.len() == 0 {
            None
        } else {
            let e = self.queue.remove(0);
            proof {
                assert(self.queue@ =~= old(self)@.queue.drop_first());
                assert(in_flight(self@) =~= in_flight(old(self)@).drop_first());
            }
            Some(e)
        }
    }
}

} // verus!
