//! A queue as the patterns assume it of the broker: messages wait in order,
//! go to consumers within their prefetch limits, and stay with the queue
//! until a consumer acknowledges them.
//!
//! Messages are known here by an identifier that the publisher chooses.

use vstd::prelude::*;

verus! {

/// A message in a queue.
#[derive(Clone, Copy, Debug, PartialEq, Eq, Structural)]
pub struct Envelope {
    /// The identifier of the message.
    pub id: u64,
    /// Whether the message has been handed to a consumer before.
    pub redelivered: bool,
}

/// A message that a consumer holds unacknowledged.
#[derive(Clone, Copy, Debug, PartialEq, Eq, Structural)]
pub struct Held {
    /// The consumer, by the number it got when it joined.
    pub consumer: usize,
    /// The message.
    pub message: Envelope,
}

/// A consumer of the queue.
#[derive(Clone, Copy, Debug, PartialEq, Eq, Structural)]
pub struct Seat {
    /// How many messages the consumer may hold unacknowledged; `None` for no
    /// limit.
    pub limit: Option<u16>,
    /// Whether the consumer is still connected.
    pub connected: bool,
}

/// A queue, as mathematical values.
pub struct QueueView {
    /// The messages that wait, the next to go first.
    pub ready: Seq<Envelope>,
    /// The messages that consumers hold unacknowledged, oldest first.
    pub held: Seq<Held>,
    /// The consumers, in the order in which they joined.
    pub seats: Seq<Seat>,
    /// The consumer whose turn it is.
    pub cursor: int,
}

/// How many messages the consumer `c` holds unacknowledged.
pub open spec fn count_held(held: Seq<Held>, c: int) -> nat
    decreases held.len(),
{
    if held.len() == 0 {
        0
    } else {
        count_held(held.drop_last(), c) + if held.last().consumer == c {
            1nat
        } else {
            0nat
        }
    }
}

/// Whether the consumer `c` may be handed another message: it is connected
/// and holds fewer messages than its limit.
pub open spec fn eligible(q: QueueView, c: int) -> bool {
    &&& 0 <= c < q.seats.len()
    &&& q.seats[c].connected
    &&& q.seats[c].limit matches Some(n) ==> count_held(q.held, c) < n
}

/// Whether the message is held by a consumer of the queue that is connected.
pub open spec fn seated(q: QueueView, h: Held) -> bool {
    0 <= h.consumer < q.seats.len() && q.seats[h.consumer as int].connected
}

/// Whether the consumer `c` holds no more messages than its limit.
pub open spec fn within(q: QueueView, c: int) -> bool {
    q.seats[c].limit matches Some(n) ==> count_held(q.held, c) <= n
}

/// Whether no consumer holds more messages than its limit, and every held
/// message is with a connected consumer.
pub open spec fn sound(q: QueueView) -> bool {
    &&& 0 <= q.cursor <= q.seats.len() <= usize::MAX
    &&& forall|i: int| 0 <= i < q.held.len() ==> seated(q, #[trigger] q.held[i])
    &&& forall|c: int| 0 <= c < q.seats.len() ==> #[trigger] within(q, c)
}

/// The first eligible consumer from `from` up to, not including, `to`.
pub open spec fn first_eligible(q: QueueView, from: int, to: int) -> Option<int>
    decreases to - from,
{
    if from >= to {
        None
    } else if eligible(q, from) {
        Some(from)
    } else {
        first_eligible(q, from + 1, to)
    }
}

/// The consumer that gets the next message: the first eligible one, going
/// round from the consumer whose turn it is.
pub open spec fn next_consumer(q: QueueView) -> Option<int> {
    match first_eligible(q, q.cursor, q.seats.len() as int) {
        Some(c) => Some(c),
        None => first_eligible(q, 0, q.cursor),
    }
}

/// The queue after a message has been published to it: the message waits
/// behind those that wait already.
pub open spec fn publish_spec(q: QueueView, id: u64) -> QueueView {
    QueueView { ready: q.ready.push(Envelope { id, redelivered: false }), ..q }
}

/// The queue after a consumer with the prefetch limit `limit` has joined.
pub open spec fn join_spec(q: QueueView, limit: Option<u16>) -> QueueView {
    QueueView { seats: q.seats.push(Seat { limit, connected: true }), ..q }
}

/// What the queue hands out next: the message that waits first, to the next
/// consumer; nothing where no message waits or no consumer is eligible.
pub open spec fn dispatched(q: QueueView) -> Option<Held> {
    if q.ready.len() > 0 && next_consumer(q) is Some {
        Some(Held { consumer: next_consumer(q)->0 as usize, message: q.ready[0] })
    } else {
        None
    }
}

/// The queue after it has handed out what `dispatched` says: the message is
/// held by its consumer, and the turn passes to the consumer after that one.
pub open spec fn dispatch_spec(q: QueueView) -> QueueView {
    match dispatched(q) {
        Some(h) => QueueView {
            ready: q.ready.skip(1),
            held: q.held.push(h),
            cursor: if h.consumer + 1 >= q.seats.len() {
                0
            } else {
                h.consumer + 1
            },
            ..q
        },
        None => q,
    }
}

/// Where the consumer `c` holds the message `id`: the first such place from
/// `from` on.
pub open spec fn find_held(held: Seq<Held>, c: int, id: u64, from: int) -> Option<int>
    decreases held.len() - from,
{
    if from >= held.len() || from < 0 {
        None
    } else if held[from].consumer == c && held[from].message.id == id {
        Some(from)
    } else {
        find_held(held, c, id, from + 1)
    }
}

/// The queue after the consumer `c` has settled the message `id`: the message
/// leaves the consumer's hands, and waits again, in front and marked as
/// redelivered, where `requeue` is set. Settling what the consumer does not
/// hold changes nothing.
pub open spec fn settle_spec(q: QueueView, c: int, id: u64, requeue: bool) -> QueueView {
    match find_held(q.held, c, id, 0) {
        Some(i) => QueueView {
            held: q.held.remove(i),
            ready: if requeue {
                seq![Envelope { id, redelivered: true }] + q.ready
            } else {
                q.ready
            },
            ..q
        },
        None => q,
    }
}

/// The messages that the consumer `c` holds, in order, marked as redelivered.
pub open spec fn released(held: Seq<Held>, c: int) -> Seq<Envelope>
    decreases held.len(),
{
    if held.len() == 0 {
        Seq::empty()
    } else if held.last().consumer == c {
        released(held.drop_last(), c).push(
            Envelope { id: held.last().message.id, redelivered: true },
        )
    } else {
        released(held.drop_last(), c)
    }
}

/// The messages that consumers other than `c` hold.
pub open spec fn kept(held: Seq<Held>, c: int) -> Seq<Held>
    decreases held.len(),
{
    if held.len() == 0 {
        Seq::empty()
    } else if held.last().consumer == c {
        kept(held.drop_last(), c)
    } else {
        kept(held.drop_last(), c).push(held.last())
    }
}

/// The queue after the consumer `c` has gone away: what it held unacknowledged
/// waits again, in front and marked as redelivered, and the consumer gets
/// nothing more.
pub open spec fn disconnect_spec(q: QueueView, c: int) -> QueueView {
    if 0 <= c < q.seats.len() {
        QueueView {
            ready: released(q.held, c) + q.ready,
            held: kept(q.held, c),
            seats: q.seats.update(c, Seat { connected: false, ..q.seats[c] }),
            ..q
        }
    } else {
        q
    }
}

/// Handing a message to a consumer adds one to what that consumer holds.
pub proof fn lemma_count_push(held: Seq<Held>, h: Held, c: int)
    ensures
        count_held(held.push(h), c) == count_held(held, c) + if h.consumer == c {
            1nat
        } else {
            0nat
        },
{
    assert(held.push(h).drop_last() =~= held);
}

/// Taking a message out of a consumer's hands takes one off what that
/// consumer holds.
pub proof fn lemma_count_remove(held: Seq<Held>, i: int, c: int)
    requires
        0 <= i < held.len(),
    ensures
        count_held(held.remove(i), c) + (if held[i].consumer == c {
            1nat
        } else {
            0nat
        }) == count_held(held, c),
    decreases held.len(),
{
    if i == held.len() - 1 {
        assert(held.remove(i) =~= held.drop_last());
    } else {
        lemma_count_remove(held.drop_last(), i, c);
        assert(held.remove(i).drop_last() =~= held.drop_last().remove(i));
        assert(held.remove(i).last() == held.last());
    }
}

/// Other consumers hold what they held; the one that left holds nothing.
pub proof fn lemma_count_kept(held: Seq<Held>, gone: int, c: int)
    ensures
        count_held(kept(held, gone), c) == if c == gone {
            0nat
        } else {
            count_held(held, c)
        },
        forall|i: int|
            0 <= i < kept(held, gone).len() ==> (#[trigger] kept(held, gone)[i]).consumer != gone
                && held.contains(kept(held, gone)[i]),
    decreases held.len(),
{
    if held.len() > 0 {
        lemma_count_kept(held.drop_last(), gone, c);
        let before = kept(held.drop_last(), gone);
        assert forall|i: int| 0 <= i < before.len() implies held.contains(
            #[trigger] before[i],
        ) by {
            let j = choose|j: int|
                0 <= j < held.drop_last().len() && held.drop_last()[j] == before[i];
            assert(held[j] == before[i]);
        }
        if held.last().consumer != gone {
            lemma_count_push(before, held.last(), c);
            assert(held[held.len() - 1] == held.last());
        }
    }
}

/// Every message that a consumer holds is released when the consumer goes.
pub proof fn lemma_released_holds(held: Seq<Held>, c: int, i: int)
    requires
        0 <= i < held.len(),
        held[i].consumer == c,
    ensures
        released(held, c).contains(Envelope { id: held[i].message.id, redelivered: true }),
    decreases held.len(),
{
    let wanted = Envelope { id: held[i].message.id, redelivered: true };
    if i == held.len() - 1 {
        let r = released(held, c);
        assert(r[r.len() - 1] == wanted);
    } else {
        lemma_released_holds(held.drop_last(), c, i);
        let before = released(held.drop_last(), c);
        let j = choose|j: int| 0 <= j < before.len() && before[j] == wanted;
        if held.last().consumer == c {
            assert(released(held, c)[j] == wanted);
        }
    }
}


/// A consumer that no held message names holds nothing.
pub proof fn lemma_count_absent(held: Seq<Held>, c: int)
    requires
        forall|i: int| 0 <= i < held.len() ==> (#[trigger] held[i]).consumer != c,
    ensures
        count_held(held, c) == 0,
    decreases held.len(),
{
    if held.len() > 0 {
        assert(held[held.len() - 1].consumer != c);
        assert forall|i: int| 0 <= i < held.drop_last().len() implies (
        #[trigger] held.drop_last()[i]).consumer != c by {
            assert(held.drop_last()[i] == held[i]);
        }
        lemma_count_absent(held.drop_last(), c);
    }
}


/// A queue with its consumers.
pub struct QueueModel {
    ready: Vec<Envelope>,
    held: Vec<Held>,
    seats: Vec<Seat>,
    cursor: usize,
}

impl View for QueueModel {
    type V = QueueView;

    closed spec fn view(&self) -> QueueView {
        QueueView {
            ready: self.ready@,
            held: self.held@,
            seats: self.seats@,
            cursor: self.cursor as int,
        }
    }
}

impl QueueModel {
    #[verifier::type_invariant]
    spec fn well_formed(self) -> bool {
        sound(self@)
    }

    /// An empty queue without consumers.
    pub fn new() -> (q: QueueModel)
        ensures
            q@ == (QueueView {
                ready: Seq::empty(),
                held: Seq::empty(),
                seats: Seq::empty(),
                cursor: 0,
            }),
            sound(q@),
    {
        QueueModel { ready: Vec::new(), held: Vec::new(), seats: Vec::new(), cursor: 0 }
    }

    /// How many messages wait.
    pub fn waiting(&self) -> (n: usize)
        ensures
            n == self@.ready.len(),
    {
        self.ready.len()
    }

    /// The message that waits at place `i`, the next to go at place 0.
    pub fn waiting_at(&self, i: usize) -> (r: Option<Envelope>)
        ensures
            r == (if i < self@.ready.len() {
                Some(self@.ready[i as int])
            } else {
                None
            }),
    {
        if i < self.ready.len() {
            Some(self.ready[i])
        } else {
            None
        }
    }

    /// How many messages the consumer `c` holds unacknowledged: never more
    /// than its prefetch limit.
    pub fn holding(&self, c: usize) -> (n: usize)
        ensures
            n == count_held(self@.held, c as int),
            sound(self@),
    {
        proof {
            use_type_invariant(self);
        }
        let mut n: usize = 0;
        let mut i: usize = 0;
        while i < self.held.len()
            invariant
                i <= self.held@.len(),
                n <= i,
                n == count_held(self.held@.take(i as int), c as int),
            decreases self.held@.len() - i,
        {
            assert(self.held@.take(i + 1).drop_last() =~= self.held@.take(i as int));
            if self.held[i].consumer == c {
                n = n + 1;
            }
            i = i + 1;
        }
        assert(self.held@.take(i as int) =~= self.held@);
        n
    }

    /// Whether the consumer `c` may be handed another message.
    pub fn is_eligible(&self, c: usize) -> (r: bool)
        ensures
            r == eligible(self@, c as int),
    {
        if c >= self.seats.len() {
            return false;
        }
        let seat = self.seats[c];
        if !seat.connected {
            return false;
        }
        match seat.limit {
            None => true,
            Some(n) => self.holding(c) < n as usize,
        }
    }

    /// A consumer with the prefetch limit `limit` joins; its number is returned.
    pub fn join(&mut self, limit: Option<u16>) -> (c: usize)
        ensures
            c == old(self)@.seats.len(),
            final(self)@ == join_spec(old(self)@, limit),
            sound(final(self)@),
    {
        proof {
            use_type_invariant(&*self);
        }
        let ghost before = self@;
        let mut taken = QueueModel::new();
        core::mem::swap(self, &mut taken);
        let QueueModel { ready, held, mut seats, cursor } = taken;
        seats.push(Seat { limit, connected: true });
        let c: usize = seats.len() - 1;
        proof {
            lemma_join_sound(before, limit);
        }
        *self = QueueModel { ready, held, seats, cursor };
        c
    }

    /// A message is published to the queue: it waits behind those that wait
    /// already.
    pub fn publish(&mut self, id: u64)
        ensures
            final(self)@ == publish_spec(old(self)@, id),
            sound(final(self)@),
    {
        proof {
            use_type_invariant(&*self);
        }
        let mut taken = QueueModel::new();
        core::mem::swap(self, &mut taken);
        let ghost before = taken@;
        let QueueModel { mut ready, held, seats, cursor } = taken;
        ready.push(Envelope { id, redelivered: false });
        proof {
            lemma_publish_sound(before, id);
        }
        *self = QueueModel { ready, held, seats, cursor };
    }

    fn scan(&self, from: usize, to: usize) -> (r: Option<usize>)
        requires
            from <= to <= self@.seats.len(),
        ensures
            match r {
                Some(c) => first_eligible(self@, from as int, to as int) == Some(c as int),
                None => first_eligible(self@, from as int, to as int) is None,
            },
    {
        let mut c: usize = from;
        while c < to
            invariant
                from <= c <= to <= self@.seats.len(),
                first_eligible(self@, from as int, to as int) == first_eligible(
                    self@,
                    c as int,
                    to as int,
                ),
            decreases to - c,
        {
            if self.is_eligible(c) {
                return Some(c);
            }
            c = c + 1;
        }
        None
    }

    /// The consumer that gets the next message, if any is eligible.
    pub fn next(&self) -> (r: Option<usize>)
        ensures
            match r {
                Some(c) => next_consumer(self@) == Some(c as int),
                None => next_consumer(self@) is None,
            },
    {
        proof {
            use_type_invariant(self);
        }
        match self.scan(self.cursor, self.seats.len()) {
            Some(c) => Some(c),
            None => self.scan(0, self.cursor),
        }
    }

    /// Hands the message that waits first to the next consumer, and returns
    /// it with its consumer; `None` where no message waits or no consumer is
    /// eligible.
    pub fn dispatch(&mut self) -> (r: Option<Held>)
        ensures
            r == dispatched(old(self)@),
            final(self)@ == dispatch_spec(old(self)@),
            sound(final(self)@),
    {
        proof {
            use_type_invariant(&*self);
        }
        if self.ready.len() == 0 {
            return None;
        }
        let c: usize = match self.next() {
            Some(c) => c,
            None => {
                return None;
            },
        };
        let ghost before = self@;
        proof {
            lemma_first_eligible(before, before.cursor, before.seats.len() as int);
            lemma_first_eligible(before, 0, before.cursor);
            assert(eligible(before, c as int));
        }
        let mut taken = QueueModel::new();
        core::mem::swap(self, &mut taken);
        let QueueModel { mut ready, mut held, seats, cursor } = taken;
        let message = ready.remove(0);
        let h = Held { consumer: c, message };
        held.push(h);
        assert(c < seats@.len());
        let turn: usize = if c + 1 >= seats.len() {
            0
        } else {
            c + 1
        };
        proof {
            assert(ready@ =~= before.ready.skip(1));
            lemma_dispatch_sound(before);
        }
        *self = QueueModel { ready, held, seats, cursor: turn };
        Some(h)
    }

    fn find(&self, c: usize, id: u64) -> (r: Option<usize>)
        ensures
            match r {
                Some(i) => find_held(self@.held, c as int, id, 0) == Some(i as int) && i
                    < self@.held.len(),
                None => find_held(self@.held, c as int, id, 0) is None,
            },
    {
        let mut i: usize = 0;
        while i < self.held.len()
            invariant
                i <= self.held@.len(),
                find_held(self@.held, c as int, id, 0) == find_held(
                    self@.held,
                    c as int,
                    id,
                    i as int,
                ),
            decreases self.held@.len() - i,
        {
            if self.held[i].consumer == c && self.held[i].message.id == id {
                return Some(i);
            }
            i = i + 1;
        }
        None
    }

    fn settle(&mut self, c: usize, id: u64, requeue: bool) -> (was_held: bool)
        ensures
            was_held == find_held(old(self)@.held, c as int, id, 0) is Some,
            final(self)@ == settle_spec(old(self)@, c as int, id, requeue),
            sound(final(self)@),
    {
        proof {
            use_type_invariant(&*self);
        }
        let i: usize = match self.find(c, id) {
            Some(i) => i,
            None => {
                return false;
            },
        };
        let ghost before = self@;
        let mut taken = QueueModel::new();
        core::mem::swap(self, &mut taken);
        let QueueModel { mut ready, mut held, seats, cursor } = taken;
        held.remove(i);
        if requeue {
            ready.insert(0, Envelope { id, redelivered: true });
            assert(ready@ =~= seq![Envelope { id, redelivered: true }] + before.ready);
        }
        proof {
            assert(held@ =~= before.held.remove(i as int));
            lemma_settle_sound(before, c as int, id, requeue);
        }
        *self = QueueModel { ready, held, seats, cursor };
        true
    }

    /// The consumer `c` acknowledges the message `id`: the queue lets go of
    /// it. Returns whether the consumer held it.
    pub fn ack(&mut self, c: usize, id: u64) -> (was_held: bool)
        ensures
            was_held == find_held(old(self)@.held, c as int, id, 0) is Some,
            final(self)@ == settle_spec(old(self)@, c as int, id, false),
            sound(final(self)@),
    {
        self.settle(c, id, false)
    }

    /// The consumer `c` rejects the message `id`: with `requeue` it waits
    /// again, in front; without, the queue lets go of it. Returns whether the
    /// consumer held it.
    pub fn nack(&mut self, c: usize, id: u64, requeue: bool) -> (was_held: bool)
        ensures
            was_held == find_held(old(self)@.held, c as int, id, 0) is Some,
            final(self)@ == settle_spec(old(self)@, c as int, id, requeue),
            sound(final(self)@),
    {
        self.settle(c, id, requeue)
    }

    /// The consumer `c` goes away: what it held unacknowledged waits again.
    pub fn disconnect(&mut self, c: usize)
        ensures
            final(self)@ == disconnect_spec(old(self)@, c as int),
            sound(final(self)@),
    {
        proof {
            use_type_invariant(&*self);
        }
        if c >= self.seats.len() {
            return;
        }
        let ghost before = self@;
        let mut taken = QueueModel::new();
        core::mem::swap(self, &mut taken);
        let QueueModel { mut ready, held, mut seats, cursor } = taken;
        let mut back: Vec<Envelope> = Vec::new();
        let mut keep: Vec<Held> = Vec::new();
        let mut i: usize = 0;
        while i < held.len()
            invariant
                i <= held@.len(),
                back@ == released(held@.take(i as int), c as int),
                keep@ == kept(held@.take(i as int), c as int),
            decreases held@.len() - i,
        {
            assert(held@.take(i + 1).drop_last() =~= held@.take(i as int));
            let h = held[i];
            if h.consumer == c {
                back.push(Envelope { id: h.message.id, redelivered: true });
            } else {
                keep.push(h);
            }
            i = i + 1;
        }
        assert(held@.take(i as int) =~= held@);
        back.append(&mut ready);
        let seat = seats[c];
        seats.set(c, Seat { limit: seat.limit, connected: false });
        proof {
            assert(seats@ =~= disconnect_spec(before, c as int).seats);
            lemma_disconnect_sound(before, c as int);
        }
        *self = QueueModel { ready: back, held: keep, seats, cursor };
    }
}

/// What `first_eligible` finds is an eligible consumer within its range, and
/// it finds one wherever the range holds one.
pub proof fn lemma_first_eligible(q: QueueView, from: int, to: int)
    ensures
        first_eligible(q, from, to) matches Some(c) ==> from <= c < to && eligible(q, c),
        first_eligible(q, from, to) is None ==> forall|c: int| from <= c < to ==> !eligible(q, c),
    decreases to - from,
{
    if from < to {
        lemma_first_eligible(q, from + 1, to);
    }
}

/// What `find_held` finds is a place where the consumer holds the message,
/// and it finds one wherever there is one.
pub proof fn lemma_find_held(held: Seq<Held>, c: int, id: u64, from: int)
    requires
        0 <= from,
    ensures
        find_held(held, c, id, from) matches Some(i) ==> from <= i < held.len() && held[i].consumer
            == c && held[i].message.id == id,
        find_held(held, c, id, from) is None ==> forall|i: int|
            from <= i < held.len() ==> !(held[i].consumer == c && held[i].message.id == id),
    decreases held.len() - from,
{
    if from < held.len() {
        lemma_find_held(held, c, id, from + 1);
    }
}

/// Publishing keeps a sound queue sound.
pub proof fn lemma_publish_sound(q: QueueView, id: u64)
    requires
        sound(q),
    ensures
        sound(publish_spec(q, id)),
{
    let published = publish_spec(q, id);
    assert forall|k: int| 0 <= k < published.seats.len() implies #[trigger] within(
        published,
        k,
    ) by {
        assert(within(q, k));
    }
    assert forall|i: int| 0 <= i < published.held.len() implies seated(
        published,
        #[trigger] published.held[i],
    ) by {
        assert(seated(q, q.held[i]));
    }
}

/// The joining of a consumer keeps a sound queue sound.
pub proof fn lemma_join_sound(q: QueueView, limit: Option<u16>)
    requires
        sound(q),
        q.seats.len() < usize::MAX,
    ensures
        sound(join_spec(q, limit)),
{
    let joined = join_spec(q, limit);
    assert forall|k: int| 0 <= k < joined.seats.len() implies #[trigger] within(joined, k) by {
        if k < q.seats.len() {
            assert(within(q, k));
        } else {
            lemma_count_absent(q.held, k);
        }
    }
    assert forall|i: int| 0 <= i < joined.held.len() implies seated(
        joined,
        #[trigger] joined.held[i],
    ) by {
        assert(seated(q, q.held[i]));
    }
}

/// Handing a message out keeps a sound queue sound: the consumer that gets
/// the message was eligible, so it held fewer messages than its limit.
pub proof fn lemma_dispatch_sound(q: QueueView)
    requires
        sound(q),
    ensures
        sound(dispatch_spec(q)),
        dispatched(q) matches Some(h) ==> eligible(q, h.consumer as int),
{
    let handed = dispatch_spec(q);
    if dispatched(q) is Some {
        let h = dispatched(q)->0;
        lemma_first_eligible(q, q.cursor, q.seats.len() as int);
        lemma_first_eligible(q, 0, q.cursor);
        assert(eligible(q, h.consumer as int));
        assert forall|k: int| 0 <= k < handed.seats.len() implies #[trigger] within(handed, k) by {
            lemma_count_push(q.held, h, k);
            assert(within(q, k));
        }
        assert forall|i: int| 0 <= i < handed.held.len() implies seated(
            handed,
            #[trigger] handed.held[i],
        ) by {
            if i < q.held.len() {
                assert(seated(q, q.held[i]));
            }
        }
    }
}

/// Settling a message keeps a sound queue sound.
pub proof fn lemma_settle_sound(q: QueueView, c: int, id: u64, requeue: bool)
    requires
        sound(q),
    ensures
        sound(settle_spec(q, c, id, requeue)),
{
    let settled = settle_spec(q, c, id, requeue);
    if find_held(q.held, c, id, 0) is Some {
        let i = find_held(q.held, c, id, 0)->0;
        lemma_find_held(q.held, c, id, 0);
        assert forall|k: int| 0 <= k < settled.seats.len() implies #[trigger] within(settled, k) by {
            lemma_count_remove(q.held, i, k);
            assert(within(q, k));
        }
        assert forall|j: int| 0 <= j < settled.held.len() implies seated(
            settled,
            #[trigger] settled.held[j],
        ) by {
            let j0 = if j < i { j } else { j + 1 };
            assert(settled.held[j] == q.held[j0]);
            assert(seated(q, q.held[j0]));
        }
    }
}

/// The going of a consumer keeps a sound queue sound.
pub proof fn lemma_disconnect_sound(q: QueueView, c: int)
    requires
        sound(q),
    ensures
        sound(disconnect_spec(q, c)),
{
    let left = disconnect_spec(q, c);
    if 0 <= c < q.seats.len() {
        assert forall|k: int| 0 <= k < left.seats.len() implies #[trigger] within(left, k) by {
            lemma_count_kept(q.held, c, k);
            assert(within(q, k));
        }
        lemma_count_kept(q.held, c, c);
        assert forall|j: int| 0 <= j < left.held.len() implies seated(
            left,
            #[trigger] left.held[j],
        ) by {
            let h = left.held[j];
            assert(q.held.contains(h));
            let j0 = choose|j0: int| 0 <= j0 < q.held.len() && q.held[j0] == h;
            assert(seated(q, q.held[j0]));
        }
    }
}

/// No consumer ever holds more than its prefetch limit: a sound queue is
/// sound after whatever happens to it. With a limit of one, a consumer holds
/// one message at most, however many wait.
pub proof fn lemma_within_prefetch(
    q: QueueView,
    id: u64,
    limit: Option<u16>,
    c: int,
    requeue: bool,
)
    requires
        sound(q),
    ensures
        sound(publish_spec(q, id)),
        q.seats.len() < usize::MAX ==> sound(join_spec(q, limit)),
        sound(dispatch_spec(q)),
        sound(settle_spec(q, c, id, requeue)),
        sound(disconnect_spec(q, c)),
        forall|k: int|
            0 <= k < q.seats.len() && q.seats[k].limit == Some(1u16) ==> count_held(
                dispatch_spec(q).held,
                k,
            ) <= 1,
{
    lemma_publish_sound(q, id);
    if q.seats.len() < usize::MAX {
        lemma_join_sound(q, limit);
    }
    lemma_dispatch_sound(q);
    lemma_settle_sound(q, c, id, requeue);
    lemma_disconnect_sound(q, c);
    assert forall|k: int|
        0 <= k < q.seats.len() && q.seats[k].limit == Some(1u16) implies count_held(
        dispatch_spec(q).held,
        k,
    ) <= 1 by {
        assert(within(dispatch_spec(q), k));
    }
}

/// A message that a consumer held when it went away waits again, marked as
/// redelivered: the queue has not lost it.
pub proof fn lemma_unacknowledged_waits_again(q: QueueView, c: int, i: int)
    requires
        sound(q),
        0 <= i < q.held.len(),
        q.held[i].consumer == c,
    ensures
        disconnect_spec(q, c).ready.contains(
            Envelope { id: q.held[i].message.id, redelivered: true },
        ),
        count_held(disconnect_spec(q, c).held, c) == 0,
        !eligible(disconnect_spec(q, c), c),
{
    let wanted = Envelope { id: q.held[i].message.id, redelivered: true };
    lemma_released_holds(q.held, c, i);
    let r = released(q.held, c);
    let j = choose|j: int| 0 <= j < r.len() && r[j] == wanted;
    assert((r + q.ready)[j] == wanted);
    lemma_count_kept(q.held, c, c);
}

/// A message that waits is handed out as soon as a consumer is eligible, the
/// one that waits first going first.
pub proof fn lemma_waiting_is_delivered(q: QueueView, c: int)
    requires
        sound(q),
        q.ready.len() > 0,
        eligible(q, c),
    ensures
        dispatched(q) is Some,
        dispatched(q)->0.message == q.ready[0],
        eligible(q, dispatched(q)->0.consumer as int),
        dispatch_spec(q).held.last() == dispatched(q)->0,
{
    lemma_first_eligible(q, q.cursor, q.seats.len() as int);
    lemma_first_eligible(q, 0, q.cursor);
}

/// A message leaves the queue by an acknowledgment or by a rejection without
/// requeue, and in no other way: after a rejection with requeue it waits
/// again, first in line.
pub proof fn lemma_requeue_keeps(q: QueueView, c: int, id: u64)
    requires
        find_held(q.held, c, id, 0) is Some,
    ensures
        settle_spec(q, c, id, true).ready[0] == (Envelope { id, redelivered: true }),
        settle_spec(q, c, id, true).ready.len() == q.ready.len() + 1,
        settle_spec(q, c, id, false).ready == q.ready,
        settle_spec(q, c, id, false).held.len() == q.held.len() - 1,
{
    lemma_find_held(q.held, c, id, 0);
}

/// How many of the waiting messages are the message `id`.
pub open spec fn waiting_copies(ready: Seq<Envelope>, id: u64) -> nat
    decreases ready.len(),
{
    if ready.len() == 0 {
        0
    } else {
        waiting_copies(ready.drop_last(), id) + if ready.last().id == id {
            1nat
        } else {
            0nat
        }
    }
}

/// How many of the held messages are the message `id`.
pub open spec fn held_copies(held: Seq<Held>, id: u64) -> nat
    decreases held.len(),
{
    if held.len() == 0 {
        0
    } else {
        held_copies(held.drop_last(), id) + if held.last().message.id == id {
            1nat
        } else {
            0nat
        }
    }
}

/// How many times the queue has the message `id`, waiting or held.
pub open spec fn copies(q: QueueView, id: u64) -> nat {
    waiting_copies(q.ready, id) + held_copies(q.held, id)
}

/// The copies among two runs of waiting messages add up.
pub proof fn lemma_waiting_copies_add(a: Seq<Envelope>, b: Seq<Envelope>, id: u64)
    ensures
        waiting_copies(a + b, id) == waiting_copies(a, id) + waiting_copies(b, id),
    decreases b.len(),
{
    if b.len() == 0 {
        assert(a + b =~= a);
    } else {
        lemma_waiting_copies_add(a, b.drop_last(), id);
        assert((a + b).drop_last() =~= a + b.drop_last());
        assert((a + b).last() == b.last());
    }
}

/// Taking a held message out takes one copy of it out, and none of another.
pub proof fn lemma_held_copies_remove(held: Seq<Held>, i: int, id: u64)
    requires
        0 <= i < held.len(),
    ensures
        held_copies(held.remove(i), id) + (if held[i].message.id == id {
            1nat
        } else {
            0nat
        }) == held_copies(held, id),
    decreases held.len(),
{
    if i == held.len() - 1 {
        assert(held.remove(i) =~= held.drop_last());
    } else {
        lemma_held_copies_remove(held.drop_last(), i, id);
        assert(held.remove(i).drop_last() =~= held.drop_last().remove(i));
        assert(held.remove(i).last() == held.last());
    }
}

/// What a consumer releases and what the others keep make up what was held.
pub proof fn lemma_released_and_kept(held: Seq<Held>, c: int, id: u64)
    ensures
        waiting_copies(released(held, c), id) + held_copies(kept(held, c), id) == held_copies(
            held,
            id,
        ),
    decreases held.len(),
{
    if held.len() > 0 {
        lemma_released_and_kept(held.drop_last(), c, id);
        if held.last().consumer == c {
            let r = released(held.drop_last(), c);
            let e = Envelope { id: held.last().message.id, redelivered: true };
            assert(r.push(e).drop_last() =~= r);
        } else {
            let k = kept(held.drop_last(), c);
            assert(k.push(held.last()).drop_last() =~= k);
        }
    }
}

/// The queue loses no message. Handing a message out, taking it back with a
/// requeue, and the going of a consumer leave as many copies of every message
/// as there were; publishing adds one of the message published; and only an
/// acknowledgment, or a rejection without requeue, by a consumer that holds
/// the message takes one away, of that message alone.
pub proof fn lemma_nothing_lost(q: QueueView, c: int, settled: u64, published: u64, id: u64)
    ensures
        copies(dispatch_spec(q), id) == copies(q, id),
        copies(disconnect_spec(q, c), id) == copies(q, id),
        copies(settle_spec(q, c, settled, true), id) == copies(q, id),
        copies(settle_spec(q, c, settled, false), id) == copies(q, id) - (if id == settled
            && find_held(q.held, c, settled, 0) is Some {
            1int
        } else {
            0int
        }),
        copies(publish_spec(q, published), id) == copies(q, id) + (if id == published {
            1int
        } else {
            0int
        }),
{
    // publishing
    assert(q.ready.push(Envelope { id: published, redelivered: false }).drop_last() =~= q.ready);
    // handing out
    if dispatched(q) is Some {
        let h = dispatched(q)->0;
        let first = seq![q.ready[0]];
        assert(first + q.ready.skip(1) =~= q.ready);
        lemma_waiting_copies_add(first, q.ready.skip(1), id);
        assert(first.drop_last() =~= Seq::<Envelope>::empty());
        assert(waiting_copies(first.drop_last(), id) == 0);
        assert(q.held.push(h).drop_last() =~= q.held);
    }
    // the going of a consumer
    if 0 <= c < q.seats.len() {
        lemma_waiting_copies_add(released(q.held, c), q.ready, id);
        lemma_released_and_kept(q.held, c, id);
    }
    // settling
    if find_held(q.held, c, settled, 0) is Some {
        let i = find_held(q.held, c, settled, 0)->0;
        lemma_find_held(q.held, c, settled, 0);
        lemma_held_copies_remove(q.held, i, id);
        let back = seq![Envelope { id: settled, redelivered: true }];
        lemma_waiting_copies_add(back, q.ready, id);
        assert(back.drop_last() =~= Seq::<Envelope>::empty());
        assert(waiting_copies(back.drop_last(), id) == 0);
    }
}

/// A message that is held at some place is among the held messages.
pub proof fn lemma_held_copies_at(held: Seq<Held>, i: int, id: u64)
    requires
        0 <= i < held.len(),
        held[i].message.id == id,
    ensures
        held_copies(held, id) >= 1,
{
    lemma_held_copies_remove(held, i, id);
}

/// A message that the queue has once, and that a consumer holds, is
/// acknowledged once and by that consumer. No other consumer holds it, and it
/// does not wait, so it is handed to nobody else while the consumer is busy
/// with it. The consumer's acknowledgment takes it out of the queue; after
/// that nobody holds it, and a further acknowledgment, by whomever, finds
/// nothing and changes nothing.
pub proof fn lemma_acknowledged_once(q: QueueView, c: int, id: u64, other: int)
    requires
        copies(q, id) == 1,
        find_held(q.held, c, id, 0) is Some,
    ensures
        other != c ==> find_held(q.held, other, id, 0) is None,
        waiting_copies(q.ready, id) == 0,
        copies(settle_spec(q, c, id, false), id) == 0,
        find_held(settle_spec(q, c, id, false).held, other, id, 0) is None,
        settle_spec(settle_spec(q, c, id, false), other, id, false) == settle_spec(
            q,
            c,
            id,
            false,
        ),
{
    let i = find_held(q.held, c, id, 0)->0;
    lemma_find_held(q.held, c, id, 0);
    lemma_held_copies_remove(q.held, i, id);
    let rest = q.held.remove(i);
    assert(held_copies(rest, id) == 0);
    if other != c && find_held(q.held, other, id, 0) is Some {
        let j = find_held(q.held, other, id, 0)->0;
        lemma_find_held(q.held, other, id, 0);
        let j1 = if j < i { j } else { j - 1 };
        assert(rest[j1] == q.held[j]);
        lemma_held_copies_at(rest, j1, id);
    }
    if find_held(rest, other, id, 0) is Some {
        let j = find_held(rest, other, id, 0)->0;
        lemma_find_held(rest, other, id, 0);
        lemma_held_copies_at(rest, j, id);
    }
}

} // verus!
