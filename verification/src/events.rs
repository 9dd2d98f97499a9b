//! The event dispatch bus.
//!
//! Handlers subscribe under the stable identity of one event type, tagged
//! with a priority and a blocking flag. Publishing computes a
//! [`DispatchPlan`]: the blocking handlers of that type, then the
//! non-blocking ones, each partition ordered by priority tier (highest
//! first) and, within a tier, by registration order. The caller runs the
//! blocking list to completion, in order, before starting any non-blocking
//! handler.

use vstd::prelude::*;

verus! {

/// Relative priority a handler declares when it subscribes. A tier earlier
/// in this list is scheduled before a later one.
#[derive(Clone, Copy, PartialEq, Eq, Structural, Debug)]
pub enum EventPriority {
    Highest,
    High,
    Normal,
    Low,
    Lowest,
}

/// The position of a tier in the schedule: lower runs earlier.
pub open spec fn spec_rank(p: EventPriority) -> int {
    match p {
        EventPriority::Highest => 0,
        EventPriority::High => 1,
        EventPriority::Normal => 2,
        EventPriority::Low => 3,
        EventPriority::Lowest => 4,
    }
}

/// One subscription: the identity of the event type it was registered under,
/// an opaque handler token, its priority, and whether it blocks.
pub struct RegisteredHandler {
    pub event_type: String,
    pub handler: u64,
    pub priority: EventPriority,
    pub blocking: bool,
}

/// What one scheduled handler looks like from the publish side.
#[derive(Clone, Copy, PartialEq, Eq, Structural, Debug)]
pub struct HandlerRef {
    pub handler: u64,
    pub priority: EventPriority,
    pub blocking: bool,
}

/// Registry of all subscriptions, in registration order. Entries are
/// append-only for the registry's lifetime.
pub struct HandlerRegistry {
    pub entries: Vec<RegisteredHandler>,
}

/// The schedule one publish follows: every handler in `blocking` runs to
/// completion, in order, before any handler in `non_blocking` starts.
pub struct DispatchPlan {
    pub blocking: Vec<HandlerRef>,
    pub non_blocking: Vec<HandlerRef>,
}

pub open spec fn spec_ref(r: RegisteredHandler) -> HandlerRef {
    HandlerRef { handler: r.handler, priority: r.priority, blocking: r.blocking }
}

/// Does entry `r` belong to the `want_blocking` partition of `event_type`?
pub open spec fn spec_matches(
    r: RegisteredHandler,
    event_type: Seq<char>,
    want_blocking: bool,
) -> bool {
    r.event_type@ == event_type && r.blocking == want_blocking
}

/// The handlers of `s` registered under `event_type` with the given mode and
/// priority tier, in registration order.
pub open spec fn spec_selected_pri(
    s: Seq<RegisteredHandler>,
    event_type: Seq<char>,
    want_blocking: bool,
    tier: EventPriority,
) -> Seq<HandlerRef>
    decreases s.len(),
{
    if s.len() == 0 {
        Seq::empty()
    } else {
        let rest = spec_selected_pri(s.drop_last(), event_type, want_blocking, tier);
        if spec_matches(s.last(), event_type, want_blocking) && s.last().priority == tier {
            rest.push(spec_ref(s.last()))
        } else {
            rest
        }
    }
}

/// One whole partition of a publish schedule: the matching handlers, tier by
/// tier from `Highest` down to `Lowest`, each tier in registration order.
pub open spec fn spec_by_priority(
    s: Seq<RegisteredHandler>,
    event_type: Seq<char>,
    want_blocking: bool,
) -> Seq<HandlerRef> {
    spec_selected_pri(s, event_type, want_blocking, EventPriority::Highest) + spec_selected_pri(
        s,
        event_type,
        want_blocking,
        EventPriority::High,
    ) + spec_selected_pri(s, event_type, want_blocking, EventPriority::Normal)
        + spec_selected_pri(s, event_type, want_blocking, EventPriority::Low) + spec_selected_pri(
        s,
        event_type,
        want_blocking,
        EventPriority::Lowest,
    )
}

/// The entries of `s` that belong to the given partition and tier, still as
/// entries.
pub open spec fn spec_filtered_pri(
    s: Seq<RegisteredHandler>,
    event_type: Seq<char>,
    want_blocking: bool,
    tier: EventPriority,
) -> Seq<RegisteredHandler> {
    s.filter(
        |r: RegisteredHandler| spec_matches(r, event_type, want_blocking) && r.priority == tier,
    )
}

pub open spec fn spec_refs(s: Seq<RegisteredHandler>) -> Seq<HandlerRef> {
    s.map_values(|r: RegisteredHandler| spec_ref(r))
}

/// The full invocation order of one publish: the blocking partition, then
/// the non-blocking partition.
pub open spec fn spec_invocations(s: Seq<RegisteredHandler>, event_type: Seq<char>) -> Seq<
    HandlerRef,
> {
    spec_by_priority(s, event_type, true) + spec_by_priority(s, event_type, false)
}

impl HandlerRegistry {
    /// An empty registry.
    pub fn new() -> (r: Self)
        ensures
            r.entries@ == Seq::<RegisteredHandler>::empty(),
    {
        HandlerRegistry { entries: Vec::new() }
    }

    /// Append a subscription under `event_type`. It always succeeds, and no
    /// earlier registration is lost, duplicated or reordered.
    pub fn subscribe(
        &mut self,
        event_type: String,
        handler: u64,
        priority: EventPriority,
        blocking: bool,
    )
        ensures
            final(self).entries@ == old(self).entries@.push(
                (RegisteredHandler { event_type, handler, priority, blocking }),
            ),
    {
        self.entries.push(RegisteredHandler { event_type, handler, priority, blocking });
    }

    /// The schedule for publishing one event whose type identity is
    /// `event_type`: its blocking handlers, then its non-blocking handlers,
    /// each partition by priority tier and, within a tier, in registration
    /// order. Handlers registered under any other type identity never
    /// appear.
    pub fn dispatch_plan(&self, event_type: &str) -> (plan: DispatchPlan)
        ensures
            plan.blocking@ == spec_by_priority(self.entries@, event_type@, true),
            plan.non_blocking@ == spec_by_priority(self.entries@, event_type@, false),
    {
        let et: String = event_type.to_owned();
        let blocking = self.select_partition(&et, true);
        let non_blocking = self.select_partition(&et, false);
        DispatchPlan { blocking, non_blocking }
    }

    /// One partition of the schedule, tier by tier.
    fn select_partition(&self, et: &String, want_blocking: bool) -> (r: Vec<HandlerRef>)
        ensures
            r@ == spec_by_priority(self.entries@, et@, want_blocking),
    {
        let mut out: Vec<HandlerRef> = Vec::new();
        self.push_tier(et, want_blocking, EventPriority::Highest, &mut out);
        self.push_tier(et, want_blocking, EventPriority::High, &mut out);
        self.push_tier(et, want_blocking, EventPriority::Normal, &mut out);
        self.push_tier(et, want_blocking, EventPriority::Low, &mut out);
        self.push_tier(et, want_blocking, EventPriority::Lowest, &mut out);
        proof {
            assert(out@ =~= spec_by_priority(self.entries@, et@, want_blocking));
        }
        out
    }

    /// Append one tier of one partition, in registration order.
    fn push_tier(&self, et: &String, want_blocking: bool, tier: EventPriority, out: &mut Vec<
        HandlerRef,
    >)
        ensures
            final(out)@ == old(out)@ + spec_selected_pri(
                self.entries@,
                et@,
                want_blocking,
                tier,
            ),
    {
        let mut i: usize = 0;
        proof {
            assert(out@ =~= old(out)@ + spec_selected_pri(
                self.entries@.take(0),
                et@,
                want_blocking,
                tier,
            ));
        }
        while i < self.entries.len()
            invariant
                i <= self.entries@.len(),
                out@ == old(out)@ + spec_selected_pri(
                    self.entries@.take(i as int),
                    et@,
                    want_blocking,
                    tier,
                ),
            decreases self.entries@.len() - i,
        {
            proof {
                assert(self.entries@.take(i + 1 as int).drop_last() =~= self.entries@.take(
                    i as int,
                ));
                assert(self.entries@.take(i + 1 as int).last() == self.entries@[i as int]);
            }
            let e = &self.entries[i];
            if e.event_type == *et && e.blocking == want_blocking && e.priority == tier {
                out.push(HandlerRef { handler: e.handler, priority: e.priority, blocking: e.blocking });
                proof {
                    assert(out@ =~= (old(out)@ + spec_selected_pri(
                        self.entries@.take(i as int),
                        et@,
                        want_blocking,
                        tier,
                    )).push(spec_ref(self.entries@[i as int])));
                    assert(out@ =~= old(out)@ + spec_selected_pri(
                        self.entries@.take(i + 1 as int),
                        et@,
                        want_blocking,
                        tier,
                    ));
                }
            }
            i += 1;
        }
        proof {
            assert(self.entries@.take(self.entries@.len() as int) =~= self.entries@);
        }
    }
}

/// One tier of one partition equals the registration sequence filtered to
/// that tier: registration order within the tier, and every element carries
/// the tier's priority and the partition's mode.
proof fn lemma_tier_order(
    s: Seq<RegisteredHandler>,
    event_type: Seq<char>,
    want_blocking: bool,
    tier: EventPriority,
)
    ensures
        spec_selected_pri(s, event_type, want_blocking, tier) == spec_refs(
            spec_filtered_pri(s, event_type, want_blocking, tier),
        ),
        forall|i: int|
            0 <= i < spec_selected_pri(s, event_type, want_blocking, tier).len() ==> {
                let h = #[trigger] spec_selected_pri(s, event_type, want_blocking, tier)[i];
                h.blocking == want_blocking && h.priority == tier
            },
    decreases s.len(),
{
    reveal(Seq::filter);
    if s.len() == 0 {
        assert(spec_filtered_pri(s, event_type, want_blocking, tier)
            =~= Seq::<RegisteredHandler>::empty());
        assert(spec_refs(Seq::<RegisteredHandler>::empty()) =~= Seq::<HandlerRef>::empty());
    } else {
        lemma_tier_order(s.drop_last(), event_type, want_blocking, tier);
        let pre = spec_filtered_pri(s.drop_last(), event_type, want_blocking, tier);
        if spec_matches(s.last(), event_type, want_blocking) && s.last().priority == tier {
            assert(spec_refs(pre.push(s.last())) =~= spec_refs(pre).push(spec_ref(s.last())));
        }
    }
}

/// Law: each partition of a publish schedule lists its handlers by priority
/// tier, highest first, and within one tier in registration order (each tier
/// equals the registration sequence filtered to it); every handler of the
/// blocking partition blocks and none of the non-blocking partition does;
/// and the plan runs the whole blocking partition before the non-blocking
/// one by construction.
pub proof fn lemma_publish_order(s: Seq<RegisteredHandler>, event_type: Seq<char>)
    ensures
        forall|b: bool, tier: EventPriority|
            #[trigger] spec_selected_pri(s, event_type, b, tier) == spec_refs(
                spec_filtered_pri(s, event_type, b, tier),
            ),
        forall|i: int|
            0 <= i < spec_by_priority(s, event_type, true).len() ==> (
            #[trigger] spec_by_priority(s, event_type, true)[i]).blocking,
        forall|i: int|
            0 <= i < spec_by_priority(s, event_type, false).len() ==> !(
            #[trigger] spec_by_priority(s, event_type, false)[i]).blocking,
        forall|b: bool, i: int, j: int|
            0 <= i < j < spec_by_priority(s, event_type, b).len() ==> spec_rank(
                (#[trigger] spec_by_priority(s, event_type, b)[i]).priority,
            ) <= spec_rank((#[trigger] spec_by_priority(s, event_type, b)[j]).priority),
        forall|i: int, j: int|
            0 <= i < spec_by_priority(s, event_type, true).len() <= j < spec_invocations(
                s,
                event_type,
            ).len() ==> (#[trigger] spec_invocations(s, event_type)[i]).blocking && !(
            #[trigger] spec_invocations(s, event_type)[j]).blocking,
{
    assert forall|b: bool, tier: EventPriority| #[trigger] spec_selected_pri(
        s,
        event_type,
        b,
        tier,
    ) == spec_refs(spec_filtered_pri(s, event_type, b, tier)) by {
        lemma_tier_order(s, event_type, b, tier);
    }
    lemma_tier_order(s, event_type, true, EventPriority::Highest);
    lemma_tier_order(s, event_type, true, EventPriority::High);
    lemma_tier_order(s, event_type, true, EventPriority::Normal);
    lemma_tier_order(s, event_type, true, EventPriority::Low);
    lemma_tier_order(s, event_type, true, EventPriority::Lowest);
    lemma_tier_order(s, event_type, false, EventPriority::Highest);
    lemma_tier_order(s, event_type, false, EventPriority::High);
    lemma_tier_order(s, event_type, false, EventPriority::Normal);
    lemma_tier_order(s, event_type, false, EventPriority::Low);
    lemma_tier_order(s, event_type, false, EventPriority::Lowest);
}

/// Law: a subscription under one event type never changes the publish
/// schedule of a different event type.
pub proof fn lemma_type_isolation(
    s: Seq<RegisteredHandler>,
    r: RegisteredHandler,
    other: Seq<char>,
)
    requires
        r.event_type@ != other,
    ensures
        spec_by_priority(s.push(r), other, true) == spec_by_priority(s, other, true),
        spec_by_priority(s.push(r), other, false) == spec_by_priority(s, other, false),
{
    assert(s.push(r).drop_last() =~= s);
}

proof fn lemma_no_cross_type_tier(
    s: Seq<RegisteredHandler>,
    a: Seq<char>,
    h: u64,
    event_type: Seq<char>,
    want_blocking: bool,
    tier: EventPriority,
)
    requires
        forall|j: int| 0 <= j < s.len() && (#[trigger] s[j]).handler == h ==> s[j].event_type@ == a,
        a != event_type,
    ensures
        forall|i: int|
            0 <= i < spec_selected_pri(s, event_type, want_blocking, tier).len() ==> (
            #[trigger] spec_selected_pri(s, event_type, want_blocking, tier)[i]).handler != h,
    decreases s.len(),
{
    if s.len() > 0 {
        lemma_no_cross_type_tier(s.drop_last(), a, h, event_type, want_blocking, tier);
    }
}

/// Law: when a handler token is only ever subscribed under event type `a`,
/// the publish schedule of any other event type never carries that token:
/// the type identity check keeps type-erased storage from crossing types.
pub proof fn lemma_no_cross_type_dispatch(
    s: Seq<RegisteredHandler>,
    a: Seq<char>,
    h: u64,
    event_type: Seq<char>,
    want_blocking: bool,
)
    requires
        forall|j: int| 0 <= j < s.len() && (#[trigger] s[j]).handler == h ==> s[j].event_type@ == a,
        a != event_type,
    ensures
        forall|i: int|
            0 <= i < spec_by_priority(s, event_type, want_blocking).len() ==> (
            #[trigger] spec_by_priority(s, event_type, want_blocking)[i]).handler != h,
{
    lemma_no_cross_type_tier(s, a, h, event_type, want_blocking, EventPriority::Highest);
    lemma_no_cross_type_tier(s, a, h, event_type, want_blocking, EventPriority::High);
    lemma_no_cross_type_tier(s, a, h, event_type, want_blocking, EventPriority::Normal);
    lemma_no_cross_type_tier(s, a, h, event_type, want_blocking, EventPriority::Low);
    lemma_no_cross_type_tier(s, a, h, event_type, want_blocking, EventPriority::Lowest);
}

proof fn lemma_batch_tier(
    s: Seq<RegisteredHandler>,
    batch: Seq<RegisteredHandler>,
    event_type: Seq<char>,
    want_blocking: bool,
    tier: EventPriority,
)
    ensures
        spec_selected_pri(s + batch, event_type, want_blocking, tier) == spec_selected_pri(
            s,
            event_type,
            want_blocking,
            tier,
        ) + spec_selected_pri(batch, event_type, want_blocking, tier),
    decreases batch.len(),
{
    if batch.len() == 0 {
        assert(s + batch =~= s);
        assert(spec_selected_pri(s, event_type, want_blocking, tier) + spec_selected_pri(
            batch,
            event_type,
            want_blocking,
            tier,
        ) =~= spec_selected_pri(s, event_type, want_blocking, tier));
    } else {
        lemma_batch_tier(s, batch.drop_last(), event_type, want_blocking, tier);
        assert((s + batch).drop_last() =~= s + batch.drop_last());
        assert((s + batch).last() == batch.last());
        if spec_matches(batch.last(), event_type, want_blocking) && batch.last().priority
            == tier {
            assert(spec_selected_pri(s, event_type, want_blocking, tier) + spec_selected_pri(
                batch,
                event_type,
                want_blocking,
                tier,
            ) =~= (spec_selected_pri(s, event_type, want_blocking, tier) + spec_selected_pri(
                batch.drop_last(),
                event_type,
                want_blocking,
                tier,
            )).push(spec_ref(batch.last())));
        } else {
            assert(spec_selected_pri(s, event_type, want_blocking, tier) + spec_selected_pri(
                batch,
                event_type,
                want_blocking,
                tier,
            ) =~= spec_selected_pri(s, event_type, want_blocking, tier) + spec_selected_pri(
                batch.drop_last(),
                event_type,
                want_blocking,
                tier,
            ));
        }
    }
}

/// Law: appending a batch of subscriptions — the result of any interleaving
/// of concurrent subscribers — extends every tier of every publish schedule
/// by exactly the batch's own tier, in order: no registration is lost,
/// duplicated or reordered within its tier. In particular, N subscribers
/// adding M handlers of one type each leave exactly N * M more entries in
/// that type's schedule.
pub proof fn lemma_batch_subscribe(
    s: Seq<RegisteredHandler>,
    batch: Seq<RegisteredHandler>,
    event_type: Seq<char>,
    want_blocking: bool,
)
    ensures
        forall|tier: EventPriority|
            #[trigger] spec_selected_pri(s + batch, event_type, want_blocking, tier)
                == spec_selected_pri(s, event_type, want_blocking, tier) + spec_selected_pri(
                batch,
                event_type,
                want_blocking,
                tier,
            ),
        spec_by_priority(s + batch, event_type, want_blocking).len() == spec_by_priority(
            s,
            event_type,
            want_blocking,
        ).len() + spec_by_priority(batch, event_type, want_blocking).len(),
{
    assert forall|tier: EventPriority| #[trigger] spec_selected_pri(
        s + batch,
        event_type,
        want_blocking,
        tier,
    ) == spec_selected_pri(s, event_type, want_blocking, tier) + spec_selected_pri(
        batch,
        event_type,
        want_blocking,
        tier,
    ) by {
        lemma_batch_tier(s, batch, event_type, want_blocking, tier);
    }
    lemma_batch_tier(s, batch, event_type, want_blocking, EventPriority::Highest);
    lemma_batch_tier(s, batch, event_type, want_blocking, EventPriority::High);
    lemma_batch_tier(s, batch, event_type, want_blocking, EventPriority::Normal);
    lemma_batch_tier(s, batch, event_type, want_blocking, EventPriority::Low);
    lemma_batch_tier(s, batch, event_type, want_blocking, EventPriority::Lowest);
}

} // verus!
