//! The consuming side: the window of unacknowledged deliveries and what a
//! consumer does with each delivery.

use vstd::prelude::*;
use vstd::utf8::{decode_utf8, valid_utf8};
use crate::error::ErrorKind;
use crate::message::{Command, CommandView, Delivery, DeliveryView};
use crate::text::{count_dots, decode_text, occurrences};

verus! {

/// A consumer's window, as mathematical values.
pub struct WindowView {
    /// How many deliveries the consumer may hold unacknowledged; `None` for no
    /// limit.
    pub limit: Option<nat>,
    /// The tags of the deliveries held, oldest first.
    pub held: Seq<u64>,
}

/// Whether the window holds no tag twice and no more tags than its limit.
pub open spec fn within_limit(w: WindowView) -> bool {
    &&& w.held.no_duplicates()
    &&& w.limit matches Some(n) ==> w.held.len() <= n
}

/// Whether the window has room for another delivery.
pub open spec fn has_room(w: WindowView) -> bool {
    match w.limit {
        Some(n) => w.held.len() < n,
        None => true,
    }
}

/// Whether the window takes the delivery `tag`: it has room, and does not hold
/// the tag already.
pub open spec fn admits(w: WindowView, tag: u64) -> bool {
    has_room(w) && !w.held.contains(tag)
}

/// The window after the delivery `tag` has been offered.
pub open spec fn after_offer(w: WindowView, tag: u64) -> WindowView {
    if admits(w, tag) {
        WindowView { held: w.held.push(tag), ..w }
    } else {
        w
    }
}

/// The tags other than `tag`.
pub open spec fn other_than(tag: u64) -> spec_fn(u64) -> bool {
    |t: u64| t != tag
}

/// The window after the delivery `tag` has been acknowledged or rejected.
pub open spec fn after_settle(w: WindowView, tag: u64) -> WindowView {
    WindowView { held: w.held.filter(other_than(tag)), ..w }
}

/// The deliveries that a consumer holds unacknowledged, bounded by its
/// prefetch limit.
pub struct Window {
    limit: Option<u16>,
    held: Vec<u64>,
}

impl View for Window {
    type V = WindowView;

    closed spec fn view(&self) -> WindowView {
        WindowView {
            limit: match self.limit {
                Some(n) => Some(n as nat),
                None => None,
            },
            held: self.held@,
        }
    }
}

impl Window {
    #[verifier::type_invariant]
    spec fn well_formed(self) -> bool {
        within_limit(self@)
    }

    /// An empty window with the prefetch limit `limit`; `None` sets no limit.
    pub fn new(limit: Option<u16>) -> (w: Window)
        ensures
            w@.held == Seq::<u64>::empty(),
            w@.limit == (match limit {
                Some(n) => Some(n as nat),
                None => None,
            }),
            within_limit(w@),
    {
        Window { limit, held: Vec::new() }
    }

    /// How many deliveries are held, never more than the limit.
    pub fn held(&self) -> (n: usize)
        ensures
            n == self@.held.len(),
            within_limit(self@),
    {
        proof {
            use_type_invariant(self);
        }
        self.held.len()
    }

    /// Whether the delivery `tag` is held.
    pub fn holds(&self, tag: u64) -> (r: bool)
        ensures
            r == self@.held.contains(tag),
    {
        let mut i: usize = 0;
        while i < self.held.len()
            invariant
                i <= self.held@.len(),
                forall|j: int| 0 <= j < i ==> self.held@[j] != tag,
            decreases self.held@.len() - i,
        {
            if self.held[i] == tag {
                return true;
            }
            i = i + 1;
        }
        false
    }

    /// Whether the consumer is eligible for another delivery.
    pub fn eligible(&self) -> (r: bool)
        ensures
            r == has_room(self@),
    {
        match self.limit {
            Some(n) => self.held.len() < n as usize,
            None => true,
        }
    }

    /// Offers the delivery `tag` to the window. It is taken, and `true`
    /// returned, where the window has room and does not hold the tag yet.
    pub fn offer(&mut self, tag: u64) -> (taken: bool)
        ensures
            taken == admits(old(self)@, tag),
            final(self)@ == after_offer(old(self)@, tag),
            within_limit(final(self)@),
    {
        proof {
            use_type_invariant(&*self);
        }
        if !self.eligible() || self.holds(tag) {
            return false;
        }
        let mut held: Vec<u64> = Vec::new();
        core::mem::swap(&mut self.held, &mut held);
        let ghost before = held@;
        held.push(tag);
        assert(held@.no_duplicates()) by {
            assert forall|i: int, j: int|
                0 <= i < held@.len() && 0 <= j < held@.len() && i != j implies held@[i]
                != held@[j] by {
                if i < before.len() {
                    assert(before[i] == held@[i]);
                }
                if j < before.len() {
                    assert(before[j] == held@[j]);
                }
            }
        }
        self.held = held;
        true
    }

    /// Takes the delivery `tag` out of the window, once it has been
    /// acknowledged or rejected. Returns whether it was held.
    pub fn settle(&mut self, tag: u64) -> (was_held: bool)
        ensures
            was_held == old(self)@.held.contains(tag),
            final(self)@ == after_settle(old(self)@, tag),
            within_limit(final(self)@),
            !final(self)@.held.contains(tag),
            was_held ==> final(self)@.held.len() == old(self)@.held.len() - 1,
            !was_held ==> final(self)@ == old(self)@,
    {
        proof {
            use_type_invariant(&*self);
        }
        let ghost before = self.held@;
        let mut i: usize = 0;
        while i < self.held.len()
            invariant
                i <= self.held@.len(),
                self.held@ == before,
                *self == *old(self),
                within_limit(self@),
                forall|j: int| 0 <= j < i ==> before[j] != tag,
            decreases self.held@.len() - i,
        {
            if self.held[i] == tag {
                let mut held: Vec<u64> = Vec::new();
                core::mem::swap(&mut self.held, &mut held);
                held.remove(i);
                proof {
                    lemma_filter_one(before, i as int);
                    assert(held@ =~= before.remove(i as int));
                }
                self.held = held;
                return true;
            }
            i = i + 1;
        }
        proof {
            lemma_filter_none(before, tag);
        }
        false
    }
}

/// Filtering a tag out of a sequence that does not hold it changes nothing.
pub proof fn lemma_filter_none(s: Seq<u64>, tag: u64)
    requires
        !s.contains(tag),
    ensures
        s.filter(other_than(tag)) == s,
    decreases s.len(),
{
    let keep = other_than(tag);
    reveal(Seq::filter);
    if s.len() > 0 {
        assert(s.drop_last().len() < s.len());
        assert forall|j: int| 0 <= j < s.drop_last().len() implies s.drop_last()[j] != tag by {
            assert(s.drop_last()[j] == s[j]);
            assert(s.contains(s[j]));
        }
        assert(!s.drop_last().contains(tag));
        lemma_filter_none(s.drop_last(), tag);
        assert(s.contains(s.last()));
        assert(s.filter(keep) =~= s.drop_last().filter(keep).push(s.last()));
        assert(s.drop_last().push(s.last()) =~= s);
    } else {
        assert(s.filter(keep) =~= s);
    }
}

/// Filtering out the tag at `i` of a sequence without duplicates removes that
/// entry and no other.
pub proof fn lemma_filter_one(s: Seq<u64>, i: int)
    requires
        0 <= i < s.len(),
        s.no_duplicates(),
    ensures
        s.filter(other_than(s[i])) == s.remove(i),
        s.remove(i).no_duplicates(),
        !s.remove(i).contains(s[i]),
    decreases s.len(),
{
    let tag = s[i];
    let keep = other_than(tag);
    reveal(Seq::filter);
    let front = s.drop_last();
    assert(front.no_duplicates());
    if i == s.len() - 1 {
        assert(!front.contains(tag)) by {
            if front.contains(tag) {
                let j = choose|j: int| 0 <= j < front.len() && front[j] == tag;
                assert(s[j] == s[i]);
            }
        }
        lemma_filter_none(front, tag);
        assert(s.remove(i) =~= front);
        assert(s.filter(keep) =~= front.filter(keep));
    } else {
        lemma_filter_one(front, i);
        assert(front[i] == tag);
        assert(s.last() != tag);
        assert(s.filter(keep) =~= front.filter(keep).push(s.last()));
        assert(s.remove(i) =~= front.remove(i).push(s.last()));
    }
    assert(s.remove(i).no_duplicates()) by {
        assert forall|a: int, b: int|
            0 <= a < s.remove(i).len() && 0 <= b < s.remove(i).len() && a != b implies s.remove(
            i,
        )[a] != s.remove(i)[b] by {
            let a0 = if a < i { a } else { a + 1 };
            let b0 = if b < i { b } else { b + 1 };
            assert(s.remove(i)[a] == s[a0]);
            assert(s.remove(i)[b] == s[b0]);
        }
    }
    assert(!s.remove(i).contains(tag)) by {
        if s.remove(i).contains(tag) {
            let a = choose|a: int| 0 <= a < s.remove(i).len() && s.remove(i)[a] == tag;
            let a0 = if a < i { a } else { a + 1 };
            assert(s.remove(i)[a] == s[a0]);
        }
    }
}


/// What a consumer does with the text of a delivery.
#[derive(Clone, Copy, Debug, PartialEq, Eq, Structural)]
pub enum Work {
    /// The text is shown.
    Show,
    /// The text is a task: each dot in it stands for one second of work.
    Task,
}

/// What a consumer made of a delivery.
#[derive(Debug, Clone, PartialEq, Eq)]
pub struct Handled {
    /// The text of the payload, where it is UTF-8.
    pub text: Option<String>,
    /// The seconds of work to do before the command is carried out.
    pub seconds: u64,
    /// What to tell the broker once the work is done.
    pub command: Command,
}

/// What a `Handled` holds, as mathematical values.
pub struct HandledView {
    pub text: Option<Seq<char>>,
    pub seconds: u64,
    pub command: CommandView,
}

impl View for Handled {
    type V = HandledView;

    open spec fn view(&self) -> HandledView {
        HandledView {
            text: crate::message::name_view(self.text),
            seconds: self.seconds,
            command: self.command@,
        }
    }
}

/// What a consumer makes of a delivery that it has taken. A payload that is
/// UTF-8 is processed and the delivery acknowledged; any other payload is
/// rejected for good, with nothing processed.
pub open spec fn handle_spec(work: Work, delivery: DeliveryView) -> HandledView {
    if valid_utf8(delivery.payload) {
        let text = decode_utf8(delivery.payload);
        HandledView {
            text: Some(text),
            seconds: if work is Task {
                occurrences(text, '.') as u64
            } else {
                0
            },
            command: CommandView::Ack { tag: delivery.tag },
        }
    } else {
        HandledView {
            text: None,
            seconds: 0,
            command: CommandView::Nack { tag: delivery.tag, requeue: false },
        }
    }
}

/// What a consumer answers to a delivery that it cannot take: the broker is
/// asked to offer it again.
pub open spec fn turned_away(tag: u64) -> HandledView {
    HandledView { text: None, seconds: 0, command: CommandView::Nack { tag, requeue: true } }
}

/// Decodes a delivery and says what to do with it.
pub fn handle(work: Work, delivery: &Delivery) -> (handled: Handled)
    ensures
        handled@ == handle_spec(work, delivery@),
{
    match decode_text(delivery.payload.as_slice()) {
        Some(text) => {
            let seconds: u64 = match work {
                Work::Task => count_dots(text.as_str()) as u64,
                Work::Show => 0,
            };
            Handled { text: Some(text), seconds, command: Command::Ack { tag: delivery.tag } }
        },
        None => Handled {
            text: None,
            seconds: 0,
            command: Command::Nack { tag: delivery.tag, requeue: false },
        },
    }
}

/// The failure that a handled delivery is reported as, if it is one: a
/// payload that was not decoded.
pub open spec fn handled_error(handled: HandledView) -> Option<ErrorKind> {
    if handled.command matches CommandView::Nack { requeue: false, .. } {
        Some(ErrorKind::DeliveryDecodeError)
    } else {
        None
    }
}

impl Handled {
    /// The failure that the delivery is reported as, if it is one. It is
    /// local to the delivery: the consume loop goes on.
    pub fn error(&self) -> (r: Option<ErrorKind>)
        ensures
            r == handled_error(self@),
    {
        match self.command {
            Command::Nack { tag: _, requeue: false } => Some(ErrorKind::DeliveryDecodeError),
            _ => None,
        }
    }
}

/// A consumer, as mathematical values.
pub struct ConsumerView {
    pub work: Work,
    pub window: WindowView,
    /// Whether the subscription has been cancelled.
    pub cancelled: bool,
}

/// Whether the consumer takes the delivery `tag`: its subscription stands,
/// and its window admits the delivery.
pub open spec fn takes(c: ConsumerView, tag: u64) -> bool {
    !c.cancelled && admits(c.window, tag)
}

/// Whether the consumer is done: its subscription is cancelled and it holds
/// nothing that awaits its acknowledgment.
pub open spec fn is_done(c: ConsumerView) -> bool {
    c.cancelled && c.window.held.len() == 0
}

/// A consumer of one queue: what it does with a text, and the deliveries it
/// holds unacknowledged.
pub struct Consumer {
    work: Work,
    window: Window,
    cancelled: bool,
}

impl View for Consumer {
    type V = ConsumerView;

    closed spec fn view(&self) -> ConsumerView {
        ConsumerView { work: self.work, window: self.window@, cancelled: self.cancelled }
    }
}

impl Consumer {
    /// A consumer that holds nothing, with the prefetch limit `prefetch`.
    pub fn new(work: Work, prefetch: Option<u16>) -> (c: Consumer)
        ensures
            c@.work == work,
            !c@.cancelled,
            c@.window.held == Seq::<u64>::empty(),
            c@.window.limit == (match prefetch {
                Some(n) => Some(n as nat),
                None => None,
            }),
    {
        Consumer { work, window: Window::new(prefetch), cancelled: false }
    }

    /// How many deliveries the consumer holds unacknowledged: never more than
    /// its prefetch limit.
    pub fn unacknowledged(&self) -> (n: usize)
        ensures
            n == self@.window.held.len(),
            within_limit(self@.window),
    {
        self.window.held()
    }

    /// Cancels the subscription: the consumer takes no delivery from now on.
    /// What it holds stays with it until it is settled.
    pub fn cancel(&mut self)
        ensures
            final(self)@ == (ConsumerView { cancelled: true, ..old(self)@ }),
    {
        self.cancelled = true;
    }

    /// Whether the subscription is cancelled and nothing awaits an
    /// acknowledgment any more.
    pub fn done(&self) -> (r: bool)
        ensures
            r == is_done(self@),
    {
        self.cancelled && self.window.held() == 0
    }

    /// Takes a delivery from the subscription. A consumer whose subscription
    /// is cancelled, whose window is full, or that holds the delivery already,
    /// turns it away; otherwise it holds the delivery from now on and says
    /// what to do with it.
    pub fn on_delivery(&mut self, delivery: &Delivery) -> (handled: Handled)
        ensures
            final(self)@.work == old(self)@.work,
            final(self)@.cancelled == old(self)@.cancelled,
            final(self)@.window == (if takes(old(self)@, delivery.tag) {
                after_offer(old(self)@.window, delivery.tag)
            } else {
                old(self)@.window
            }),
            within_limit(final(self)@.window),
            handled@ == (if takes(old(self)@, delivery.tag) {
                handle_spec(old(self)@.work, delivery@)
            } else {
                turned_away(delivery.tag)
            }),
    {
        if !self.cancelled && self.window.offer(delivery.tag) {
            handle(self.work, delivery)
        } else {
            proof {
                use_type_invariant(&self.window);
            }
            Handled {
                text: None,
                seconds: 0,
                command: Command::Nack { tag: delivery.tag, requeue: true },
            }
        }
    }

    /// Records that the delivery `tag` has been acknowledged or rejected: the
    /// consumer holds it no longer. Returns whether it was held. A cancelled
    /// subscription settles what it holds as any other does.
    pub fn on_settled(&mut self, tag: u64) -> (was_held: bool)
        ensures
            final(self)@.work == old(self)@.work,
            final(self)@.cancelled == old(self)@.cancelled,
            final(self)@.window == after_settle(old(self)@.window, tag),
            within_limit(final(self)@.window),
            was_held == old(self)@.window.held.contains(tag),
            !final(self)@.window.held.contains(tag),
    {
        self.window.settle(tag)
    }
}

/// A cancelled subscription produces nothing new, and lets what is in flight
/// complete: settling each delivery that is held leaves the consumer done.
pub proof fn lemma_cancelled_drains(c: ConsumerView, tag: u64)
    requires
        c.cancelled,
        within_limit(c.window),
    ensures
        !takes(c, tag),
        c.window.held.len() == 1 && c.window.held[0] == tag ==> is_done(
            ConsumerView { window: after_settle(c.window, tag), ..c },
        ),
        after_settle(c.window, tag).held.len() <= c.window.held.len(),
{
    if c.window.held.contains(tag) {
        let i = choose|i: int| 0 <= i < c.window.held.len() && c.window.held[i] == tag;
        lemma_filter_one(c.window.held, i);
    } else {
        lemma_filter_none(c.window.held, tag);
    }
    if c.window.held.len() == 1 && c.window.held[0] == tag {
        lemma_filter_one(c.window.held, 0);
    }
}

/// A delivery is acknowledged exactly where its payload was decoded: a
/// consumer never acknowledges what it did not process, and never asks for a
/// payload that it cannot read to be offered again.
pub proof fn lemma_ack_follows_processing(work: Work, delivery: DeliveryView)
    ensures
        handle_spec(work, delivery).command == (CommandView::Ack { tag: delivery.tag })
            <==> valid_utf8(delivery.payload),
        handle_spec(work, delivery).text is Some <==> valid_utf8(delivery.payload),
        !valid_utf8(delivery.payload) ==> handle_spec(work, delivery).command == (
        CommandView::Nack { tag: delivery.tag, requeue: false }),
{
}

/// With a prefetch limit a window never holds more deliveries than the limit,
/// whatever is offered to it: an offer to a full window changes nothing.
pub proof fn lemma_window_stays_within_limit(w: WindowView, tag: u64)
    requires
        within_limit(w),
    ensures
        within_limit(after_offer(w, tag)),
        within_limit(after_settle(w, tag)),
        !has_room(w) ==> after_offer(w, tag) == w,
{
    if admits(w, tag) {
        let held = w.held.push(tag);
        assert forall|i: int, j: int| 0 <= i < held.len() && 0 <= j < held.len() && i != j implies held[i] != held[j] by {
            if i < w.held.len() {
                assert(w.held[i] == held[i]);
                assert(w.held.contains(held[i]));
            }
            if j < w.held.len() {
                assert(w.held[j] == held[j]);
                assert(w.held.contains(held[j]));
            }
        }
    }
    if w.held.contains(tag) {
        let i = choose|i: int| 0 <= i < w.held.len() && w.held[i] == tag;
        lemma_filter_one(w.held, i);
    } else {
        lemma_filter_none(w.held, tag);
    }
}


/// The window after each of `tags` has been offered to it, in order.
pub open spec fn after_burst(w: WindowView, tags: Seq<u64>) -> WindowView
    decreases tags.len(),
{
    if tags.len() == 0 {
        w
    } else {
        after_offer(after_burst(w, tags.drop_last()), tags.last())
    }
}

/// However many deliveries are offered at once, the window holds no more of
/// them than its limit: with a limit of one, one at most.
pub proof fn lemma_burst_within_limit(w: WindowView, tags: Seq<u64>)
    requires
        within_limit(w),
    ensures
        within_limit(after_burst(w, tags)),
        after_burst(w, tags).limit == w.limit,
        w.limit == Some(1nat) ==> after_burst(w, tags).held.len() <= 1,
    decreases tags.len(),
{
    if tags.len() > 0 {
        lemma_burst_within_limit(w, tags.drop_last());
        lemma_window_stays_within_limit(after_burst(w, tags.drop_last()), tags.last());
    }
}

} // verus!
