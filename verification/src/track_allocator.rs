//! Byte-level accounting of allocation traffic: how much is outstanding, and
//! the most that ever was.

use vstd::prelude::*;

verus! {

/// One thing that happened to the heap and that the tracker is told of.
/// Requests that the allocator turned down are no events.
#[derive(Debug, Clone, Copy, PartialEq, Eq)]
pub enum AllocEvent {
    /// A block of this many bytes was handed out.
    Alloc(usize),
    /// A block of this many bytes was given back.
    Free(usize),
    /// A block changed its size in place.
    Resize { from: usize, to: usize },
}

/// The two counters of a tracker, as contracts speak of them.
pub struct Counters {
    /// Bytes handed out and not yet given back, as far as the tracker saw.
    pub outstanding: usize,
    /// The largest value that `outstanding` had since the peak was reset.
    pub peak: usize,
}

impl Counters {
    /// The peak is never below what is outstanding.
    pub open spec fn valid(self) -> bool {
        self.peak >= self.outstanding
    }

    /// Nothing outstanding, no peak.
    pub open spec fn fresh() -> Counters {
        Counters { outstanding: 0, peak: 0 }
    }

    /// Forgetting what is outstanding; the peak stays.
    pub open spec fn after_reset(self) -> Counters {
        Counters { outstanding: 0, peak: self.peak }
    }

    /// Forgetting earlier peaks: what is outstanding now is the peak.
    pub open spec fn after_peak_reset(self) -> Counters {
        Counters { outstanding: self.outstanding, peak: self.outstanding }
    }

    /// `bytes` more are outstanding, wrapping around at `usize::MAX` as the
    /// machine's addition does, and the peak follows.
    pub open spec fn after_add(self, bytes: usize) -> Counters {
        let outstanding = self.outstanding.wrapping_add(bytes);
        Counters { outstanding, peak: if outstanding > self.peak { outstanding } else { self.peak } }
    }

    /// `bytes` fewer are outstanding, but never fewer than none: bytes that
    /// were handed out before tracking began may come back.
    pub open spec fn after_sub(self, bytes: usize) -> Counters {
        Counters {
            outstanding: if bytes >= self.outstanding {
                0
            } else {
                (self.outstanding - bytes) as usize
            },
            peak: self.peak,
        }
    }

    /// The counters after one event.
    pub open spec fn after(self, event: AllocEvent) -> Counters {
        match event {
            AllocEvent::Alloc(size) => self.after_add(size),
            AllocEvent::Free(size) => self.after_sub(size),
            AllocEvent::Resize { from, to } => if to > from {
                self.after_add((to - from) as usize)
            } else if to < from {
                self.after_sub((from - to) as usize)
            } else {
                self
            },
        }
    }

    /// The counters after a sequence of events, first to last.
    pub open spec fn replay(self, events: Seq<AllocEvent>) -> Counters
        decreases events.len(),
    {
        if events.len() == 0 {
            self
        } else {
            self.replay(events.drop_last()).after(events.last())
        }
    }
}

/// The bytes that the events handed out: allocations, and what blocks grew by.
pub open spec fn allocated(events: Seq<AllocEvent>) -> nat
    decreases events.len(),
{
    if events.len() == 0 {
        0
    } else {
        allocated(events.drop_last()) + match events.last() {
            AllocEvent::Alloc(size) => size as nat,
            AllocEvent::Free(_) => 0,
            AllocEvent::Resize { from, to } => if to > from {
                (to - from) as nat
            } else {
                0
            },
        }
    }
}

/// The bytes that the events took back: releases, and what blocks shrank by.
pub open spec fn freed(events: Seq<AllocEvent>) -> nat
    decreases events.len(),
{
    if events.len() == 0 {
        0
    } else {
        freed(events.drop_last()) + match events.last() {
            AllocEvent::Alloc(_) => 0,
            AllocEvent::Free(size) => size as nat,
            AllocEvent::Resize { from, to } => if to < from {
                (from - to) as nat
            } else {
                0
            },
        }
    }
}

/// The lowest value that allocated minus freed takes over the prefixes of
/// `events`, the empty one included: zero, unless at some point more had come
/// back than had been handed out.
pub open spec fn lowest_balance(events: Seq<AllocEvent>) -> int
    decreases events.len(),
{
    if events.len() == 0 {
        0
    } else {
        let before = lowest_balance(events.drop_last());
        let now = allocated(events) - freed(events);
        if now < before {
            now
        } else {
            before
        }
    }
}

/// Whether the outstanding count stays within `usize` all through `events`,
/// counted from zero.
pub open spec fn fits(events: Seq<AllocEvent>) -> bool
    decreases events.len(),
{
    events.len() > 0 ==> {
        &&& fits(events.drop_last())
        &&& allocated(events) - freed(events) - lowest_balance(events) <= usize::MAX
    }
}

/// What the measurement engine needs of an allocation tracker: to start a
/// window, and to read what the window has seen so far.
///
/// What a reset does to a tracker and what counts as a reading of it is for
/// each tracker to say; the engine's contracts pass on what the tracker says.
/// A tracker that says nothing promises nothing.
pub trait Tracker {
    /// Whether `after` is this tracker once a new measurement window has
    /// started.
    open spec fn reset_to(&self, after: &Self) -> bool {
        true
    }

    /// Whether `bytes` is what this tracker counts as outstanding.
    open spec fn reads(&self, bytes: usize) -> bool {
        true
    }

    /// Starts a new measurement window.
    fn reset(&mut self)
        ensures
            old(self).reset_to(final(self)),
    ;

    /// The bytes outstanding since the window started.
    fn get(&self) -> (bytes: usize)
        ensures
            self.reads(bytes),
    ;
}

/// The counters of an allocation interceptor.
pub struct TrackAllocator {
    counter: usize,
    peak: usize,
}

impl View for TrackAllocator {
    type V = Counters;

    closed spec fn view(&self) -> Counters {
        Counters { outstanding: self.counter, peak: self.peak }
    }
}

impl TrackAllocator {
    #[verifier::type_invariant]
    spec fn peak_covers_counter(&self) -> bool {
        self.peak >= self.counter
    }

    /// A tracker that has seen nothing.
    pub fn new() -> (tracker: Self)
        ensures
            tracker@ == Counters::fresh(),
    {
        TrackAllocator { counter: 0, peak: 0 }
    }

    /// Sets the outstanding bytes to zero. The peak is left as it is.
    pub fn reset(&mut self)
        ensures
            final(self)@ == old(self)@.after_reset(),
            final(self)@.outstanding == 0,
    {
        *self = TrackAllocator { counter: 0, peak: self.peak };
    }

    /// Makes what is outstanding now the peak.
    pub fn reset_peak(&mut self)
        ensures
            final(self)@ == old(self)@.after_peak_reset(),
    {
        *self = TrackAllocator { counter: self.counter, peak: self.counter };
    }

    /// The outstanding bytes.
    pub fn get(&self) -> (bytes: usize)
        ensures
            bytes == self@.outstanding,
            bytes <= self@.peak,
    {
        proof {
            use_type_invariant(self);
        }
        self.counter
    }

    /// The outstanding counter.
    pub fn counter(&self) -> (bytes: usize)
        ensures
            bytes == self@.outstanding,
            bytes <= self@.peak,
    {
        self.get()
    }

    /// The peak counter.
    pub fn peak(&self) -> (bytes: usize)
        ensures
            bytes == self@.peak,
            bytes >= self@.outstanding,
    {
        proof {
            use_type_invariant(self);
        }
        self.peak
    }

    /// Counts `u` more bytes as outstanding and raises the peak to the new
    /// count where that is higher.
    pub fn add(&mut self, u: usize)
        ensures
            final(self)@ == old(self)@.after_add(u),
            final(self)@.peak >= old(self)@.peak,
    {
        let counter = self.counter.wrapping_add(u);
        let peak = if counter > self.peak {
            counter
        } else {
            self.peak
        };
        *self = TrackAllocator { counter, peak };
    }

    /// Counts `u` fewer bytes as outstanding, stopping at zero.
    pub fn sub(&mut self, u: usize)
        ensures
            final(self)@ == old(self)@.after_sub(u),
            final(self)@.peak == old(self)@.peak,
    {
        proof {
            use_type_invariant(&*self);
        }
        *self = TrackAllocator { counter: self.counter.saturating_sub(u), peak: self.peak };
    }

    /// Takes note of one event.
    pub fn apply(&mut self, event: AllocEvent)
        ensures
            final(self)@ == old(self)@.after(event),
            final(self)@.peak >= old(self)@.peak,
    {
        match event {
            AllocEvent::Alloc(size) => self.add(size),
            AllocEvent::Free(size) => self.sub(size),
            AllocEvent::Resize { from, to } => {
                if to > from {
                    self.add(to - from);
                } else if to < from {
                    self.sub(from - to);
                }
            },
        }
    }

    /// A request for `size` bytes was answered. It counts only where it
    /// `succeeded`.
    pub fn on_alloc(&mut self, size: usize, succeeded: bool)
        ensures
            succeeded ==> final(self)@ == old(self)@.after(AllocEvent::Alloc(size)),
            !succeeded ==> final(self)@ == old(self)@,
    {
        if succeeded {
            self.add(size);
        }
    }

    /// A block of `size` bytes was given back.
    pub fn on_dealloc(&mut self, size: usize)
        ensures
            final(self)@ == old(self)@.after(AllocEvent::Free(size)),
    {
        self.sub(size);
    }

    /// A request for `size` zeroed bytes was answered. It counts only where it
    /// `succeeded`.
    pub fn on_alloc_zeroed(&mut self, size: usize, succeeded: bool)
        ensures
            succeeded ==> final(self)@ == old(self)@.after(AllocEvent::Alloc(size)),
            !succeeded ==> final(self)@ == old(self)@,
    {
        self.on_alloc(size, succeeded);
    }

    /// A request to resize a block of `old_size` bytes to `new_size` bytes was
    /// answered. Where it `succeeded`, the difference counts as an allocation
    /// or as a release; where it did not, the block is as it was.
    pub fn on_realloc(&mut self, old_size: usize, new_size: usize, succeeded: bool)
        ensures
            succeeded ==> final(self)@ == old(self)@.after(
                AllocEvent::Resize { from: old_size, to: new_size },
            ),
            !succeeded ==> final(self)@ == old(self)@,
    {
        if succeeded {
            if new_size > old_size {
                self.add(new_size - old_size);
            } else if new_size < old_size {
                self.sub(old_size - new_size);
            }
        }
    }
}

impl Tracker for TrackAllocator {
    /// A reset forgets what is outstanding and keeps the peak.
    open spec fn reset_to(&self, after: &Self) -> bool {
        after@ == self@.after_reset()
    }

    /// The reading of these counters is what they hold as outstanding.
    open spec fn reads(&self, bytes: usize) -> bool {
        bytes == self@.outstanding
    }

    fn reset(&mut self) {
        TrackAllocator::reset(self);
    }

    fn get(&self) -> (bytes: usize) {
        TrackAllocator::get(self)
    }
}

/// One event keeps the peak at or above what is outstanding, and never lowers
/// the peak.
pub proof fn lemma_event_keeps_peak(counters: Counters, event: AllocEvent)
    requires
        counters.valid(),
    ensures
        counters.after(event).valid(),
        counters.after(event).peak >= counters.peak,
{
}

/// Whatever the events are, the peak stays at or above what is outstanding
/// and never decreases; a reset of the outstanding bytes keeps both.
pub proof fn lemma_peak_covers_outstanding(counters: Counters, events: Seq<AllocEvent>)
    requires
        counters.valid(),
    ensures
        counters.replay(events).valid(),
        counters.replay(events).peak >= counters.peak,
        counters.after_reset().valid(),
        counters.after_reset().peak == counters.peak,
        counters.after_peak_reset().valid(),
    decreases events.len(),
{
    if events.len() > 0 {
        lemma_peak_covers_outstanding(counters, events.drop_last());
        lemma_event_keeps_peak(counters.replay(events.drop_last()), events.last());
    }
}

/// After a reset the tracker reports what was allocated since, minus what was
/// freed since, plus what the stops at zero forgave: the outstanding count is
/// the balance of the events above the lowest balance that any prefix had.
pub proof fn lemma_outstanding_after_replay(counters: Counters, events: Seq<AllocEvent>)
    requires
        fits(events),
    ensures
        counters.after_reset().replay(events).outstanding == allocated(events) - freed(events)
            - lowest_balance(events),
        lowest_balance(events) <= 0,
        lowest_balance(events) <= allocated(events) - freed(events),
    decreases events.len(),
{
    if events.len() > 0 {
        lemma_outstanding_after_replay(counters, events.drop_last());
    }
}

/// After a reset the tracker reports zero at once, and after any events the
/// bytes allocated since the reset minus the bytes freed since, or zero where
/// more was freed than allocated. This holds of the sequences in which no
/// release exceeds what is outstanding, and of those that end at their lowest
/// balance; the count must stay within `usize`.
pub proof fn lemma_outstanding_is_allocated_minus_freed(
    counters: Counters,
    events: Seq<AllocEvent>,
)
    requires
        fits(events),
        lowest_balance(events) == 0 || lowest_balance(events) == allocated(events) - freed(events),
    ensures
        counters.after_reset().outstanding == 0,
        counters.after_reset().replay(events).outstanding == if allocated(events) >= freed(
            events,
        ) {
            allocated(events) - freed(events)
        } else {
            0
        },
{
    lemma_outstanding_after_replay(counters, events);
}

} // verus!
