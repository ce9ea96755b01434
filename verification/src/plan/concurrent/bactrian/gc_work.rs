//! Quanta: the slices of marking and sweeping that run within pauses.

use crate::args::Environment;
use crate::plan::concurrent::bactrian::global::{
    lemma_sweep_stays_ready, sweep_of, Bactrian, BactrianView,
};
use crate::plan::concurrent::bactrian::young::CommonView;
use crate::policy::immix::chunk_work::SweepChunk;
use crate::util::clock::{nanos_since, now};
use crate::util::deque::Taken;
use crate::util::metadata::{HeapMetadata, MetadataView};
use std::time::Instant;
use vstd::prelude::*;

verus! {

/// `a / b`, rounded up.
pub open spec fn divided_up(a: int, b: int) -> int {
    (a + b - 1) / b
}

/// `a / b`, rounded up.
fn div_ceil(a: usize, b: u64) -> (quotient: usize)
    requires
        b > 0,
    ensures
        quotient == divided_up(a as int, b as int),
{
    let wide: u128 = (a as u128 + (b as u128 - 1)) / (b as u128);
    proof {
        lemma_divided_up(a as int, b as int);
    }
    wide as usize
}

/// A quotient that is rounded up is no more than what was divided.
proof fn lemma_divided_up(a: int, b: int)
    requires
        a >= 0,
        b > 0,
    ensures
        0 <= divided_up(a, b) <= a,
{
    assert(0 <= (a + b - 1) / b <= a) by (nonlinear_arith)
        requires
            a >= 0,
            b > 0,
    ;
}

/// How many nursery collections are left until promotion has used up the room.
pub open spec fn collections_left(promotion: u64, runway: u64) -> int {
    if runway / promotion > 1 {
        (runway / promotion) as int
    } else {
        1
    }
}

/// The share of the parked chunks that one quantum must sweep for the sweep to be complete before
/// promotion has used up the room. Without promotion there is none.
pub open spec fn sweep_share(remaining: usize, promotion: u64, runway: u64) -> int {
    if promotion == 0 {
        0
    } else {
        divided_up(remaining as int, collections_left(promotion, runway))
    }
}

/// The share of the parked chunks that one quantum must sweep.
pub fn sweep_quota(remaining: usize, promotion: u64, runway: u64) -> (quota: usize)
    ensures
        quota == sweep_share(remaining, promotion, runway),
{
    if promotion == 0 {
        0
    } else {
        let left: u64 = runway / promotion;
        div_ceil(
            remaining,
            if left > 1 {
                left
            } else {
                1
            },
        )
    }
}

/// A sweep quantum ends: the budget is spent, and the share is swept or the cap is reached.
pub open spec fn sweep_ends(
    packets: usize,
    quota: usize,
    budget: u64,
    cap: u64,
    since_budget: u64,
    since_start: u64,
) -> bool {
    since_budget >= budget && (packets >= quota || since_start >= cap)
}

/// Whether a sweep quantum ends after `packets` packets. The times are in nanoseconds.
pub fn sweep_expired(
    packets: usize,
    quota: usize,
    budget: u64,
    cap: u64,
    since_budget: u64,
    since_start: u64,
) -> (expired: bool)
    ensures
        expired == sweep_ends(packets, quota, budget, cap, since_budget, since_start),
{
    since_budget >= budget && (packets >= quota || since_start >= cap)
}

/// The times at which one chunk after the other was swept, each since the budget counts and since
/// the sweep started, let a quantum sweep `packets` chunks: it did not end after an earlier one,
/// and after the last one it ended if `ends`.
pub open spec fn swept_in_time(
    packets: usize,
    quota: usize,
    budget: u64,
    cap: u64,
    times: Seq<(u64, u64)>,
    ends: bool,
) -> bool {
    &&& times.len() == packets
    &&& forall|k: int|
        0 <= k < packets ==> sweep_ends(
            (k + 1) as usize,
            quota,
            budget,
            cap,
            (#[trigger] times[k]).0,
            times[k].1,
        ) == (ends && k == packets - 1)
}

/// Whether the next sweep quantum should have no budget. `need_exceeds_room` says that at the
/// measured rate the sweep would need more collections than are left.
pub fn sweep_escalates(remaining: usize, slices: u64, need_exceeds_room: bool) -> (escalates: bool)
    ensures
        escalates == (remaining > 0 && slices >= 2 && need_exceeds_room),
{
    remaining > 0 && slices >= 2 && need_exceeds_room
}

/// The plan and the tables during a sweep.
pub ghost struct SweepState {
    /// The plan.
    pub v: BactrianView,
    /// The tables.
    pub m: MetadataView,
}

/// After the `n` oldest parked chunks were swept.
pub open spec fn chunks_swept(st: SweepState, n: nat) -> SweepState
    decreases n,
{
    if n == 0 {
        st
    } else {
        let before = chunks_swept(st, (n - 1) as nat);
        SweepState { v: before.v.chunk_swept(before.m), m: before.v.chunk_swept_tables(before.m) }
    }
}

/// `after` is what a sweep quantum leaves of `before`, when it has swept `n` chunks.
pub open spec fn quantum_swept(before: SweepState, after: SweepState, env: Environment, n: nat) -> bool {
    &&& n <= before.v.parked_sweep.len()
    &&& after.m == chunks_swept(before, n).m
    &&& after.v == chunks_swept(before, n).v.sweep_noticed(env)
    &&& chunks_swept(before, n).v.parked_sweep.len() == before.v.parked_sweep.len() - n
}

/// The queue and the counter after some chunks were swept.
pub proof fn lemma_chunks_swept(st: SweepState, n: nat)
    requires
        st.v.sweep_counter == st.v.parked_sweep.len(),
        n <= st.v.parked_sweep.len(),
    ensures
        chunks_swept(st, n).v.parked_sweep == st.v.parked_sweep.subrange(
            n as int,
            st.v.parked_sweep.len() as int,
        ),
        chunks_swept(st, n).v.sweep_counter == st.v.parked_sweep.len() - n,
    decreases n,
{
    if n == 0 {
        assert(st.v.parked_sweep.subrange(0, st.v.parked_sweep.len() as int)
            =~= st.v.parked_sweep);
    } else {
        lemma_chunks_swept(st, (n - 1) as nat);
        assert(chunks_swept(st, n).v.parked_sweep =~= st.v.parked_sweep.subrange(
            n as int,
            st.v.parked_sweep.len() as int,
        ));
    }
}

/// When the last parked chunk has been swept, every block that the sweep found reusable can be
/// taken by any worker, and so can every block that it freed.
pub proof fn law_complete_sweep_makes_blocks_available(st: SweepState)
    requires
        st.v.sweep_counter == st.v.parked_sweep.len(),
        st.v.parked_sweep.len() > 0,
    ensures
        ({
            let after = chunks_swept(st, st.v.parked_sweep.len()).v;
            &&& after.parked_sweep.len() == 0
            &&& after.s.reusable_blocks.pending.len() == 0
            &&& usize::BITS == 64 ==> after.s.pr.pending.len() == 0
        }),
{
    reveal(SweepChunk::space_swept);
    let n = st.v.parked_sweep.len();
    lemma_chunks_swept(st, n);
    lemma_chunks_swept(st, (n - 1) as nat);
    let before = chunks_swept(st, (n - 1) as nat);
    assert(before.v.sweep_counter == 1);
    assert(chunks_swept(st, n).v.s == sweep_of(before.v.parked_sweep[0]).space_swept(
        before.v.s,
        before.m,
        true,
        1,
    ));
}

/// The oldest parked chunk can be swept.
proof fn lemma_oldest_ready(v: BactrianView, m: MetadataView)
    requires
        v.sweep_ready(m),
    ensures
        v.sweep_counter == v.parked_sweep.len(),
        v.s.wf(m),
        v.parked_sweep.len() > 0 ==> sweep_of(v.parked_sweep[0]).ready(m, v.s),
{
    reveal(BactrianView::sweep_ready);
}

/// Takes the oldest parked chunk.
fn take_oldest(plan: &mut Bactrian, Ghost(m): Ghost<MetadataView>) -> (taken: Taken<usize>)
    requires
        old(plan)@.sweep_ready(m),
    ensures
        taken is Empty <==> old(plan)@.parked_sweep.len() == 0,
        taken !is Packet ==> final(plan)@ == old(plan)@,
        taken matches Taken::Packet(chunk) ==> {
            &&& chunk == old(plan)@.parked_sweep[0]
            &&& final(plan)@ == (BactrianView {
                parked_sweep: old(plan)@.parked_sweep.drop_first(),
                ..old(plan)@
            })
            &&& sweep_of(chunk).ready(m, old(plan)@.s)
        },
        old(plan)@.s.wf(m),
        old(plan)@.sweep_counter == old(plan)@.parked_sweep.len(),
{
    proof {
        lemma_oldest_ready(plan@, m);
    }
    plan.pop_sweep_packet()
}

/// Why a sweep quantum has ended.
#[derive(Debug, Clone, Copy, PartialEq, Eq, Structural)]
pub enum SweepEnding {
    /// No chunk is left.
    Drained,
    /// The budget is spent, and the share is swept or the cap is reached.
    Expired,
    /// A parked chunk could not be taken.
    Contended,
}

/// A sweep quantum that is running.
#[derive(Debug, Clone, Copy)]
pub struct SweepRun {
    /// The share of the parked chunks that a quantum with a budget must sweep.
    pub quota: usize,
    /// The time in nanoseconds after which it need not.
    pub cap: u64,
    /// When the budget began to count.
    pub deadline_base: Instant,
    /// When the sweep started.
    pub started: Instant,
    /// How many chunks have been swept.
    pub packets: usize,
}

/// What a sweep quantum came to.
#[derive(Debug, Clone, Copy, PartialEq, Eq, Structural)]
pub struct SweepReport {
    /// How many chunks were swept.
    pub packets: usize,
    /// How long it took, in nanoseconds.
    pub nanos: u64,
    /// It ended because a parked chunk could not be taken.
    pub contended: bool,
}

/// A quantum of sweeping: sweeps parked chunks until none is left or the budget is spent.
#[derive(Debug, Clone, Copy, PartialEq, Eq, Structural)]
pub struct BactrianSweepQuantum {
    /// The budget in nanoseconds.
    pub budget: Option<u64>,
}

impl BactrianSweepQuantum {
    /// A quantum with a budget.
    pub fn budgeted(nanos: u64) -> (quantum: Self)
        ensures
            quantum.budget == Some(nanos),
    {
        BactrianSweepQuantum { budget: Some(nanos) }
    }

    /// A quantum without a budget.
    pub fn unbudgeted() -> (quantum: Self)
        ensures
            quantum.budget is None,
    {
        BactrianSweepQuantum { budget: None }
    }

    /// The quantum ends or goes on as `ending` says after `packets` chunks, the last of which was
    /// swept at the given times.
    pub open spec fn ends_as(
        self,
        run: SweepRun,
        packets: usize,
        times: (u64, u64),
        ending: Option<SweepEnding>,
    ) -> bool {
        ending == match self.budget {
            Some(budget) if sweep_ends(
                packets,
                run.quota,
                budget,
                run.cap,
                times.0,
                times.1,
            ) => Some(SweepEnding::Expired),
            _ => None,
        }
    }

    /// Goes on after an attempt to take a chunk: a chunk that was taken is swept. Returns why the
    /// quantum ends, if it does.
    pub fn run_taken(
        &self,
        run: &mut SweepRun,
        plan: &mut Bactrian,
        meta: &mut HeapMetadata,
        taken: Taken<usize>,
    ) -> (ending: Option<SweepEnding>)
        requires
            old(meta).wf(),
            taken matches Taken::Packet(chunk) ==> {
                &&& old(run).packets < usize::MAX
                &&& old(plan)@.s.wf(old(meta)@)
                &&& old(plan)@.sweep_counter > 0
                &&& sweep_of(chunk).ready(old(meta)@, old(plan)@.s)
            },
        ensures
            final(meta).wf(),
            taken matches Taken::Packet(chunk) ==> {
                &&& *final(run) == (SweepRun {
                    packets: (old(run).packets + 1) as usize,
                    ..*old(run)
                })
                &&& final(plan)@ == old(plan)@.taken_chunk_swept(old(meta)@, chunk)
                &&& final(meta)@ == sweep_of(chunk).swept(old(plan)@.s, old(meta)@, true)
                &&& exists|times: (u64, u64)| #[trigger]
                    self.ends_as(*old(run), final(run).packets, times, ending)
            },
            taken !is Packet ==> {
                &&& *final(run) == *old(run)
                &&& *final(plan) == *old(plan)
                &&& *final(meta) == *old(meta)
            },
            taken is Empty ==> ending == Some(SweepEnding::Drained),
            taken is Retry ==> ending == Some(SweepEnding::Contended),
    {
        match taken {
            Taken::Packet(chunk) => {
                let ghost before: SweepRun = *run;
                plan.run_sweep_packet(meta, chunk);
                run.packets = run.packets + 1;
                let since_budget: u64 = nanos_since(&run.deadline_base);
                let since_start: u64 = nanos_since(&run.started);
                let ending: Option<SweepEnding> = match self.budget {
                    Some(budget) => if sweep_expired(
                        run.packets,
                        run.quota,
                        budget,
                        run.cap,
                        since_budget,
                        since_start,
                    ) {
                        Some(SweepEnding::Expired)
                    } else {
                        None
                    },
                    None => None,
                };
                assert(self.ends_as(before, run.packets, (since_budget, since_start), ending));
                ending
            },
            Taken::Empty => Some(SweepEnding::Drained),
            Taken::Retry => Some(SweepEnding::Contended),
        }
    }

    /// Takes the oldest parked chunk and goes on from there. Returns why the quantum ends, if it
    /// does.
    fn sweep_oldest(
        &self,
        run: &mut SweepRun,
        plan: &mut Bactrian,
        meta: &mut HeapMetadata,
    ) -> (ending: Option<SweepEnding>)
        requires
            old(meta).wf(),
            old(plan)@.sweep_ready(old(meta)@),
            old(run).packets < usize::MAX || old(plan)@.parked_sweep.len() == 0,
        ensures
            final(meta).wf(),
            final(plan)@.sweep_ready(final(meta)@),
            old(plan)@.parked_sweep.len() == 0 <==> ending == Some(SweepEnding::Drained),
            match ending {
                Some(SweepEnding::Drained) | Some(SweepEnding::Contended) => {
                    &&& *final(run) == *old(run)
                    &&& final(plan)@ == old(plan)@
                    &&& final(meta)@ == old(meta)@
                },
                _ => {
                    &&& *final(run) == (SweepRun {
                        packets: (old(run).packets + 1) as usize,
                        ..*old(run)
                    })
                    &&& final(plan)@ == old(plan)@.chunk_swept(old(meta)@)
                    &&& final(meta)@ == old(plan)@.chunk_swept_tables(old(meta)@)
                    &&& exists|times: (u64, u64)| #[trigger]
                        self.ends_as(*old(run), final(run).packets, times, ending)
                },
            },
    {
        let ghost v: BactrianView = plan@;
        let ghost m: MetadataView = meta@;
        let taken: Taken<usize> = take_oldest(plan, Ghost(m));
        let ghost is_packet: bool = taken is Packet;
        let ending: Option<SweepEnding> = self.run_taken(run, plan, meta, taken);
        proof {
            if is_packet {
                assert(plan@ == v.chunk_swept(m));
                lemma_sweep_stays_ready(v, m);
            }
        }
        ending
    }

    /// Sweeps parked chunks, oldest first. `promotion` and `runway` are the pages that a nursery
    /// collection promotes and the pages that are left, and `cap` is the time in nanoseconds after
    /// which a quantum with a budget need not sweep its share. When no chunk is left, that is
    /// noticed in this quantum.
    pub fn do_work(
        &self,
        plan: &mut Bactrian,
        meta: &mut HeapMetadata,
        env: &Environment,
        promotion: u64,
        runway: u64,
        cap: u64,
    ) -> (report: SweepReport)
        requires
            old(meta).wf(),
            old(plan)@.sweep_ready(old(meta)@),
        ensures
            final(meta).wf(),
            quantum_swept(
                SweepState { v: old(plan)@, m: old(meta)@ },
                SweepState { v: final(plan)@, m: final(meta)@ },
                *env,
                report.packets as nat,
            ),
            self.budget is None && !report.contended ==> report.packets == old(
                plan,
            )@.parked_sweep.len(),
            report.contended ==> report.packets < old(plan)@.parked_sweep.len(),
            !report.contended && old(plan)@.parked_sweep.len() > 0 ==> report.packets >= 1,
            self.budget matches Some(budget) ==> exists|times: Seq<(u64, u64)>, ends: bool|
                {
                    &&& #[trigger] swept_in_time(
                        report.packets,
                        sweep_share(
                            old(plan)@.parked_sweep.len() as usize,
                            promotion,
                            runway,
                        ) as usize,
                        budget,
                        cap,
                        times,
                        ends,
                    )
                    &&& !ends && !report.contended ==> report.packets == old(
                        plan,
                    )@.parked_sweep.len()
                    &&& ends ==> !report.contended && report.packets >= 1
                },
    {
        let deadline_base: Instant = now();
        let quota: usize = sweep_quota(plan.sweep_packets_remaining(), promotion, runway);
        let started: Instant = now();
        let mut run: SweepRun = SweepRun { quota, cap, deadline_base, started, packets: 0 };
        let ghost start: SweepState = SweepState { v: plan@, m: meta@ };
        let ghost mut times: Seq<(u64, u64)> = Seq::empty();
        let mut ending: Option<SweepEnding> = None;
        proof {
            lemma_oldest_ready(plan@, meta@);
        }
        while ending.is_none()
            invariant
                meta.wf(),
                plan@.sweep_ready(meta@),
                start.v == old(plan)@,
                start.m == old(meta)@,
                start.v.sweep_counter == start.v.parked_sweep.len(),
                run.quota == quota,
                run.cap == cap,
                times.len() == run.packets,
                run.packets <= start.v.parked_sweep.len(),
                chunks_swept(start, run.packets as nat) == (SweepState { v: plan@, m: meta@ }),
                self.budget matches Some(budget) ==> swept_in_time(
                    run.packets,
                    quota,
                    budget,
                    cap,
                    times,
                    ending == Some(SweepEnding::Expired),
                ),
                ending == Some(SweepEnding::Drained) ==> run.packets
                    == start.v.parked_sweep.len(),
                ending == Some(SweepEnding::Contended) ==> run.packets
                    < start.v.parked_sweep.len(),
                ending == Some(SweepEnding::Expired) ==> self.budget is Some && run.packets >= 1,
            decreases
                    start.v.parked_sweep.len() - run.packets + (if ending is Some {
                        0int
                    } else {
                        1int
                    }),
        {
            let ghost before: SweepRun = run;
            let ghost earlier: Seq<(u64, u64)> = times;
            proof {
                lemma_chunks_swept(start, run.packets as nat);
            }
            ending = self.sweep_oldest(&mut run, plan, meta);
            proof {
                if run.packets != before.packets {
                    let at = choose|at: (u64, u64)| #[trigger]
                        self.ends_as(before, run.packets, at, ending);
                    times = earlier.push(at);
                    assert forall|k: int| 0 <= k < run.packets - 1 implies #[trigger] times[k]
                        == earlier[k] by {}
                }
            }
        }
        let packets: usize = run.packets;
        let ghost ends: bool = ending == Some(SweepEnding::Expired);
        let contended: bool = match ending {
            Some(SweepEnding::Contended) => true,
            _ => false,
        };
        proof {
            lemma_chunks_swept(start, packets as nat);
        }
        if plan.sweep_queue_is_empty() {
            plan.sweep_queue_emptied(env);
        }
        assert(self.budget matches Some(budget) ==> swept_in_time(
            packets,
            sweep_share(old(plan)@.parked_sweep.len() as usize, promotion, runway) as usize,
            budget,
            cap,
            times,
            ends,
        ));
        SweepReport { packets, nanos: nanos_since(&started), contended }
    }
}

/// What the quota of a mark quantum goes by.
#[derive(Debug, Clone, Copy, PartialEq, Eq, Structural)]
pub struct QuotaInputs {
    /// How many objects have been handed to marking packets.
    pub enqueued: usize,
    /// How many overwritten values the write barriers have kept.
    pub satb_enqueued: usize,
    /// How many objects wait to be marked.
    pub backlog: usize,
    /// The pages that a nursery collection promotes.
    pub promotion: u64,
    /// The pages that are left.
    pub runway: u64,
    /// The measured rate of marking. Zero says that there is none yet.
    pub mark_rate: u64,
    /// How many slices the backlog needs at that rate, for no slice to take too long.
    pub min_slices: u64,
}

impl QuotaInputs {
    /// All that has been handed to marking.
    pub open spec fn inflow_mark(self) -> int {
        self.enqueued + self.satb_enqueued
    }

    /// What has been handed to marking since the last quantum ended.
    pub open spec fn inflow(self, at_last_quantum: usize) -> int {
        if self.inflow_mark() > at_last_quantum {
            self.inflow_mark() - at_last_quantum
        } else {
            0
        }
    }

    /// How many slices the backlog may be spread over: no more than the nursery collections that
    /// are left, but enough for no slice to take too long.
    pub open spec fn slices_available(self) -> int {
        let left = if self.promotion == 0 || collections_left(self.promotion, self.runway)
            > 0x7fff_ffff_ffff_ffff {
            0x7fff_ffff_ffff_ffff
        } else {
            collections_left(self.promotion, self.runway)
        };
        let needed = if self.mark_rate == 0 {
            1
        } else {
            self.min_slices as int
        };
        if left > needed {
            left
        } else {
            needed
        }
    }

    /// The share of the backlog that one quantum must mark. Without promotion and without a rate
    /// there is none.
    pub open spec fn share(self) -> int {
        if self.promotion == 0 && self.mark_rate == 0 {
            0
        } else {
            divided_up(self.backlog as int, self.slices_available())
        }
    }

    /// How many objects a quantum with a budget must mark before the budget counts.
    pub open spec fn quota(self, at_last_quantum: usize) -> int {
        self.inflow(at_last_quantum) + self.share()
    }

    /// The numbers can be added up.
    pub open spec fn fits(self, at_last_quantum: usize) -> bool {
        &&& self.inflow_mark() <= usize::MAX
        &&& self.quota(at_last_quantum) <= usize::MAX
        &&& self.mark_rate != 0 ==> self.min_slices >= 1
    }
}

/// A quantum retires at least what came in since the last one, and what is left over from the
/// backlog when it is spread over the slices that are available. So as many quanta as there are
/// slices retire the whole backlog.
pub proof fn law_shares_cover_the_backlog(inputs: QuotaInputs, at_last_quantum: usize)
    requires
        inputs.fits(at_last_quantum),
        inputs.promotion != 0 || inputs.mark_rate != 0,
    ensures
        inputs.quota(at_last_quantum) >= inputs.inflow(at_last_quantum),
        inputs.share() * inputs.slices_available() >= inputs.backlog,
{
    let b = inputs.slices_available();
    let a = inputs.backlog as int;
    assert(b >= 1);
    assert((a + b - 1) / b * b >= a && (a + b - 1) / b >= 0) by (nonlinear_arith)
        requires
            b >= 1,
            a >= 0,
    ;
}

/// How many slices the backlog may be spread over.
fn slices_available(inputs: &QuotaInputs) -> (slices: u64)
    requires
        inputs.mark_rate != 0 ==> inputs.min_slices >= 1,
    ensures
        slices == inputs.slices_available(),
        slices >= 1,
{
    let half: u64 = u64::MAX / 2;
    let left: u64 = if inputs.promotion == 0 {
        half
    } else {
        let quotient: u64 = inputs.runway / inputs.promotion;
        if quotient > half {
            half
        } else if quotient > 1 {
            quotient
        } else {
            1
        }
    };
    let needed: u64 = if inputs.mark_rate == 0 {
        1
    } else {
        inputs.min_slices
    };
    if left > needed {
        left
    } else {
        needed
    }
}

/// How many objects a quantum with a budget must mark before the budget counts.
pub fn mark_quota(inputs: &QuotaInputs, at_last_quantum: usize) -> (quota: usize)
    requires
        inputs.fits(at_last_quantum),
    ensures
        quota == inputs.quota(at_last_quantum),
{
    let mark: usize = inputs.enqueued + inputs.satb_enqueued;
    let inflow: usize = if mark > at_last_quantum {
        mark - at_last_quantum
    } else {
        0
    };
    let share: usize = if inputs.promotion == 0 && inputs.mark_rate == 0 {
        0
    } else {
        div_ceil(inputs.backlog, slices_available(inputs))
    };
    inflow + share
}

/// Whether the next mark quantum should have no budget. `need_exceeds_room` says that at the
/// measured rate marking would need more collections than are left.
pub fn mark_escalates(drained: bool, slices: u64, need_exceeds_room: bool) -> (escalates: bool)
    ensures
        escalates == (!drained && slices >= 4 && need_exceeds_room),
{
    !drained && slices >= 4 && need_exceeds_room
}

/// A mark quantum that is running.
#[derive(Debug, Clone, Copy, PartialEq, Eq, Structural)]
pub struct MarkRun {
    /// How many objects must be marked before the budget counts. Without a budget there is none.
    pub quota: Option<usize>,
    /// How many objects had been marked when the quantum started.
    pub traced_at_start: usize,
    /// When the quantum ends, in nanoseconds. It is set when the quota is met.
    pub deadline: Option<u64>,
    /// How many packets have run.
    pub packets: usize,
    /// Traces marked the large objects of all ages before the quantum started.
    pub was_full: bool,
}

/// What a mark quantum came to.
#[derive(Debug, Clone, Copy, PartialEq, Eq, Structural)]
pub struct MarkReport {
    /// How many packets ran.
    pub packets: usize,
    /// How many objects were marked.
    pub traced: usize,
    /// How many of them exceed the quota. Without a budget there is none.
    pub net: Option<usize>,
}

/// Why a mark quantum has ended.
#[derive(Debug, Clone, Copy, PartialEq, Eq, Structural)]
pub enum MarkEnding {
    /// No packet is left.
    Drained,
    /// The quota is met, and the budget is spent.
    Expired,
    /// A parked packet could not be taken, or no more packets can be counted.
    Interrupted,
}

/// How a mark quantum has ended.
#[derive(Debug, Clone, Copy, PartialEq, Eq, Structural)]
pub struct MarkEnd {
    /// Why it has ended.
    pub ending: MarkEnding,
    /// The quantum at its end.
    pub run: MarkRun,
    /// What it came to.
    pub report: MarkReport,
    /// How long it took, in nanoseconds.
    pub nanos: u64,
}

/// A marking packet that a worker has run: what it was handed, and what it left.
pub ghost struct PacketCall {
    /// The packet: whether it came from a write barrier, and the addresses of its objects.
    pub packet: (bool, Seq<usize>),
    /// The plan when the packet started.
    pub plan: BactrianView,
    /// The tables when the packet started.
    pub tables: MetadataView,
    /// The plan when the packet ended.
    pub plan_after: BactrianView,
    /// The tables when the packet ended.
    pub tables_after: MetadataView,
    /// How many objects had been marked when the packet ended.
    pub traced: usize,
}

/// What a worker has done so far.
pub ghost struct MarkHistory {
    /// The packets that it has run, one after the other.
    pub ran: Seq<PacketCall>,
    /// How many objects have been marked.
    pub traced: usize,
    /// How many objects have been handed to marking packets.
    pub enqueued: usize,
    /// How many overwritten values the write barriers have kept.
    pub satb_enqueued: usize,
}

/// A worker that marks: it runs packets, and counts. What a packet does to the plan and to the
/// tables is the worker's own, and so is the proof that a worker keeps to the contracts here: they
/// say that its history tells what it was made to run, and that its counts are those it gives.
pub trait MarkWorker: Sized {
    /// What the worker has done so far. Contracts alone speak of it: it is never called.
    spec fn history(&self) -> MarkHistory;

    /// Runs a marking packet. New packets may be parked with the plan. What has been marked stays
    /// counted.
    fn run_marking_packet(
        &mut self,
        plan: &mut Bactrian,
        meta: &mut HeapMetadata,
        from_barrier: bool,
        objects: Vec<usize>,
    )
        ensures
            final(self).history().ran == old(self).history().ran.push(
                (PacketCall {
                    packet: (from_barrier, objects@),
                    plan: old(plan)@,
                    tables: old(meta)@,
                    plan_after: final(plan)@,
                    tables_after: final(meta)@,
                    traced: final(self).history().traced,
                }),
            ),
            final(self).history().traced >= old(self).history().traced,
    ;

    /// How many objects have been marked.
    fn traced(&self) -> (traced: usize)
        ensures
            traced == self.history().traced,
    ;

    /// How many objects have been handed to marking packets.
    fn enqueued(&self) -> (enqueued: usize)
        ensures
            enqueued == self.history().enqueued,
    ;

    /// How many overwritten values the write barriers have kept.
    fn satb_enqueued(&self) -> (satb_enqueued: usize)
        ensures
            satb_enqueued == self.history().satb_enqueued,
    ;
}

/// The packets that a worker has run since it had run those in `before`.
pub open spec fn calls_since(before: Seq<PacketCall>, after: Seq<PacketCall>) -> Seq<PacketCall> {
    after.skip(before.len() as int)
}

/// The plan after the packets have run. It was `v` before.
pub open spec fn plan_after(v: BactrianView, calls: Seq<PacketCall>) -> BactrianView {
    if calls.len() == 0 {
        v
    } else {
        calls.last().plan_after
    }
}

/// The tables after the packets have run. They were `m` before.
pub open spec fn tables_after(m: MetadataView, calls: Seq<PacketCall>) -> MetadataView {
    if calls.len() == 0 {
        m
    } else {
        calls.last().tables_after
    }
}

/// The packet ran as the oldest of those that were parked in `v`, and without it.
pub open spec fn ran_oldest(v: BactrianView, m: MetadataView, call: PacketCall) -> bool {
    &&& v.parked_marking.len() > 0
    &&& call.packet == v.parked_marking[0]
    &&& call.plan == (BactrianView { parked_marking: v.parked_marking.drop_first(), ..v })
    &&& call.tables == m
}

/// Packet `k` ran as the oldest of those that were parked after the packets before it.
pub open spec fn ran_at_its_turn(
    v: BactrianView,
    m: MetadataView,
    calls: Seq<PacketCall>,
    k: int,
) -> bool {
    ran_oldest(plan_after(v, calls.take(k)), tables_after(m, calls.take(k)), calls[k])
}

/// Each of the packets ran as the oldest of those that were parked at its time.
pub open spec fn ran_in_turn(v: BactrianView, m: MetadataView, calls: Seq<PacketCall>) -> bool {
    forall|k: int| 0 <= k < calls.len() ==> #[trigger] ran_at_its_turn(v, m, calls, k)
}

/// The counts of objects that had been marked after each packet, none less than the one before.
pub open spec fn counts_rise(first: usize, calls: Seq<PacketCall>) -> bool {
    &&& forall|k: int| 0 <= k < calls.len() ==> first <= (#[trigger] calls[k]).traced
    &&& forall|i: int, k: int|
        0 <= i <= k < calls.len() ==> (#[trigger] calls[i]).traced <= (#[trigger] calls[k]).traced
}

/// What is known after each of the packets. `times` are the times at which they ended.
pub open spec fn packets_done(calls: Seq<PacketCall>, times: Seq<u64>) -> Seq<PacketDone> {
    Seq::new(calls.len(), |k: int| (calls[k].traced, times[k]))
}

/// What the end of a mark quantum says of the packets that are parked then.
pub open spec fn leaves_parked(ending: MarkEnding, run: MarkRun, v: BactrianView) -> bool {
    match ending {
        MarkEnding::Drained => v.parked_marking.len() == 0,
        MarkEnding::Expired => true,
        MarkEnding::Interrupted => v.parked_marking.len() > 0 || run.packets == usize::MAX,
    }
}

/// All that has been handed to marking, as far as it can be counted.
pub open spec fn handed_to_marking(enqueued: usize, satb_enqueued: usize) -> usize {
    if enqueued + satb_enqueued <= usize::MAX {
        (enqueued + satb_enqueued) as usize
    } else {
        usize::MAX
    }
}

/// A quantum of marking: runs parked marking packets until none is left, or until the quota is met
/// and then the budget is spent.
#[derive(Debug, Clone, Copy, PartialEq, Eq, Structural)]
pub struct BactrianMarkQuantum {
    /// The budget in nanoseconds.
    pub budget: Option<u64>,
}

/// What is known after a packet has run: how many objects have been marked, and the time in
/// nanoseconds.
pub type PacketDone = (usize, u64);

impl BactrianMarkQuantum {
    /// A quantum with a budget.
    pub fn budgeted(nanos: u64) -> (quantum: Self)
        ensures
            quantum.budget == Some(nanos),
    {
        BactrianMarkQuantum { budget: Some(nanos) }
    }

    /// A quantum without a budget.
    pub fn unbudgeted() -> (quantum: Self)
        ensures
            quantum.budget is None,
    {
        BactrianMarkQuantum { budget: None }
    }

    /// The quota is met.
    pub open spec fn quota_met(self, run: MarkRun, done: PacketDone) -> bool {
        done.0 - run.traced_at_start >= (match run.quota {
            Some(quota) => quota as int,
            None => 0,
        })
    }

    /// The quantum after a packet has run. The time from which on it ends is set by the packet
    /// that meets the quota.
    pub open spec fn stepped(self, run: MarkRun, done: PacketDone) -> MarkRun {
        MarkRun {
            packets: (run.packets + 1) as usize,
            deadline: match self.budget {
                Some(budget) if run.deadline is None && self.quota_met(run, done) => Some(
                    (done.1 + budget) as u64,
                ),
                _ => run.deadline,
            },
            ..run
        }
    }

    /// The quantum ends after a packet has run.
    pub open spec fn ends(self, run: MarkRun, done: PacketDone) -> bool {
        &&& self.budget is Some
        &&& run.deadline matches Some(deadline) && done.1 >= deadline
    }

    /// The quantum after packets have run one after the other.
    pub open spec fn run_for(self, run: MarkRun, done: Seq<PacketDone>) -> MarkRun
        decreases done.len(),
    {
        if done.len() == 0 {
            run
        } else {
            self.stepped(self.run_for(run, done.drop_last()), done.last())
        }
    }

    /// The quantum when it starts.
    pub open spec fn started(self, v: BactrianView, inputs: QuotaInputs, traced: usize) -> MarkRun {
        MarkRun {
            quota: match self.budget {
                Some(_) => Some(inputs.quota(v.enqueued_at_last_quantum) as usize),
                None => None,
            },
            traced_at_start: traced,
            deadline: None,
            packets: 0,
            was_full: v.common.full_semantics,
        }
    }

    /// The quantum ends after packet `k` has run.
    pub open spec fn ends_at(self, first: MarkRun, done: Seq<PacketDone>, k: int) -> bool {
        self.ends(self.run_for(first, done.take(k)), done[k])
    }

    /// The quantum goes on after each of the packets that have run.
    pub open spec fn goes_on(self, first: MarkRun, done: Seq<PacketDone>) -> bool {
        forall|k: int| 0 <= k < done.len() ==> !#[trigger] self.ends_at(first, done, k)
    }

    /// The quantum ended as `ending` and `run` say after it had run packets one after the other: it
    /// went on until the last one, and ended after that if the budget was spent then.
    pub open spec fn ended(
        self,
        first: MarkRun,
        done: Seq<PacketDone>,
        ending: MarkEnding,
        run: MarkRun,
    ) -> bool {
        &&& run == self.run_for(first, done)
        &&& if ending == MarkEnding::Expired {
            &&& done.len() > 0
            &&& self.goes_on(first, done.drop_last())
            &&& self.ends(self.run_for(first, done.drop_last()), done.last())
        } else {
            self.goes_on(first, done)
        }
    }

    /// The times at which packets ended leave room for the budget.
    pub open spec fn times_fit(self, times: Seq<u64>) -> bool {
        self.budget matches Some(budget) ==> forall|k: int|
            0 <= k < times.len() ==> (#[trigger] times[k]) + budget <= u64::MAX
    }

    /// The quantum ended as `ending` and `run` say after the packets had run.
    pub open spec fn ended_after(
        self,
        first: MarkRun,
        calls: Seq<PacketCall>,
        times: Seq<u64>,
        ending: MarkEnding,
        run: MarkRun,
    ) -> bool {
        &&& times.len() == calls.len()
        &&& self.times_fit(times)
        &&& self.ended(first, packets_done(calls, times), ending, run)
    }

    /// What the quantum came to, when `traced` objects have been marked at its end.
    pub open spec fn reported(self, run: MarkRun, traced: usize) -> MarkReport {
        let marked = (traced - run.traced_at_start) as usize;
        MarkReport {
            packets: run.packets,
            traced: marked,
            net: match run.quota {
                Some(quota) => Some(
                    (if marked > quota {
                        marked - quota
                    } else {
                        0
                    }) as usize,
                ),
                None => None,
            },
        }
    }

    /// Starts the quantum. `traced` is how many objects have been marked before.
    pub fn start(&self, plan: &mut Bactrian, inputs: &QuotaInputs, traced: usize) -> (run: MarkRun)
        requires
            self.budget is Some ==> inputs.fits(old(plan)@.enqueued_at_last_quantum),
        ensures
            run == self.started(old(plan)@, *inputs, traced),
            final(plan)@ == with_full_semantics(old(plan)@, true),
    {
        let quota: Option<usize> = match self.budget {
            Some(_) => Some(mark_quota(inputs, plan.enqueued_at_last_quantum())),
            None => None,
        };
        let was_full: bool = plan.set_marking_full_semantics(true);
        MarkRun { quota, traced_at_start: traced, deadline: None, packets: 0, was_full }
    }

    /// Takes note that a packet has run: `traced` is how many objects have been marked, and `now`
    /// the time in nanoseconds. Returns whether the quantum ends.
    pub fn after_packet(&self, run: &mut MarkRun, traced: usize, now: u64) -> (ends: bool)
        requires
            traced >= old(run).traced_at_start,
            old(run).packets < usize::MAX,
            self.budget matches Some(budget) ==> now + budget <= u64::MAX,
        ensures
            *final(run) == self.stepped(*old(run), (traced, now)),
            ends == self.ends(*old(run), (traced, now)),
    {
        run.packets = run.packets + 1;
        match self.budget {
            Some(budget) => match run.deadline {
                None => {
                    let quota: usize = match run.quota {
                        Some(quota) => quota,
                        None => 0,
                    };
                    if traced - run.traced_at_start >= quota {
                        run.deadline = Some(now + budget);
                    }
                    false
                },
                Some(deadline) => now >= deadline,
            },
            None => false,
        }
    }

    /// Ends the quantum. `enqueued` and `satb_enqueued` are what has been handed to marking since
    /// the beginning, and `traced` is how many objects have been marked.
    pub fn finish(
        &self,
        run: &MarkRun,
        plan: &mut Bactrian,
        enqueued: usize,
        satb_enqueued: usize,
        traced: usize,
    ) -> (report: MarkReport)
        requires
            traced >= run.traced_at_start,
            enqueued + satb_enqueued <= usize::MAX,
        ensures
            report == self.reported(*run, traced),
            final(plan)@ == (BactrianView {
                enqueued_at_last_quantum: (enqueued + satb_enqueued) as usize,
                ..with_full_semantics(old(plan)@, run.was_full)
            }),
    {
        let _was_full: bool = plan.set_marking_full_semantics(run.was_full);
        plan.set_enqueued_at_last_quantum(enqueued + satb_enqueued);
        let marked: usize = traced - run.traced_at_start;
        MarkReport {
            packets: run.packets,
            traced: marked,
            net: match run.quota {
                Some(quota) => Some(
                    if marked > quota {
                        marked - quota
                    } else {
                        0
                    },
                ),
                None => None,
            },
        }
    }
}

impl BactrianMarkQuantum {
    /// The time since the quantum started, in nanoseconds. It leaves room for the budget.
    fn packet_time(&self, started: &Instant) -> (nanos: u64)
        ensures
            self.budget matches Some(budget) ==> nanos + budget <= u64::MAX,
    {
        let nanos: u64 = nanos_since(started);
        let limit: u64 = match self.budget {
            Some(budget) => u64::MAX - budget,
            None => u64::MAX,
        };
        if nanos > limit {
            limit
        } else {
            nanos
        }
    }

    /// A packet ended at some time, after `traced` objects had been marked, and the quantum ended
    /// then or not as `ending` says.
    pub open spec fn stepped_at_some_time(
        self,
        before: MarkRun,
        after: MarkRun,
        traced: usize,
        ending: Option<MarkEnding>,
    ) -> bool {
        exists|nanos: u64|
            {
                &&& self.budget matches Some(budget) ==> nanos + budget <= u64::MAX
                &&& after == #[trigger] self.stepped(before, (traced, nanos))
                &&& ending == if self.ends(before, (traced, nanos)) {
                    Some(MarkEnding::Expired)
                } else {
                    None
                }
            }
    }

    /// Goes on after an attempt to take a packet: a packet runs on the worker. Returns why the
    /// quantum ends, if it does.
    pub fn run_taken<W: MarkWorker>(
        &self,
        run: &mut MarkRun,
        plan: &mut Bactrian,
        meta: &mut HeapMetadata,
        worker: &mut W,
        taken: Taken<(bool, Vec<usize>)>,
        started: &Instant,
    ) -> (ending: Option<MarkEnding>)
        requires
            old(run).packets < usize::MAX,
            old(run).traced_at_start <= old(worker).history().traced,
        ensures
            taken matches Taken::Packet(packet) ==> {
                &&& final(worker).history().ran == old(worker).history().ran.push(
                    (PacketCall {
                        packet: (packet.0, packet.1@),
                        plan: old(plan)@,
                        tables: old(meta)@,
                        plan_after: final(plan)@,
                        tables_after: final(meta)@,
                        traced: final(worker).history().traced,
                    }),
                )
                &&& final(worker).history().traced >= old(worker).history().traced
                &&& self.stepped_at_some_time(
                    *old(run),
                    *final(run),
                    final(worker).history().traced,
                    ending,
                )
            },
            taken !is Packet ==> {
                &&& *final(run) == *old(run)
                &&& *final(plan) == *old(plan)
                &&& *final(meta) == *old(meta)
                &&& *final(worker) == *old(worker)
            },
            taken is Empty ==> ending == Some(MarkEnding::Drained),
            taken is Retry ==> ending == Some(MarkEnding::Interrupted),
    {
        match taken {
            Taken::Packet(packet) => {
                worker.run_marking_packet(plan, meta, packet.0, packet.1);
                let traced: usize = worker.traced();
                let nanos: u64 = self.packet_time(started);
                let ghost before: MarkRun = *run;
                let ends: bool = self.after_packet(run, traced, nanos);
                assert(*run == self.stepped(before, (traced, nanos)));
                if ends {
                    Some(MarkEnding::Expired)
                } else {
                    None
                }
            },
            Taken::Empty => Some(MarkEnding::Drained),
            Taken::Retry => Some(MarkEnding::Interrupted),
        }
    }

    /// Runs parked packets on the worker until none is left, or until the quota is met and the
    /// budget is spent. Returns why it has ended.
    fn run_packets<W: MarkWorker>(
        &self,
        run: &mut MarkRun,
        plan: &mut Bactrian,
        meta: &mut HeapMetadata,
        worker: &mut W,
        started: &Instant,
    ) -> (ending: MarkEnding)
        requires
            old(run).packets == 0,
            old(run).traced_at_start == old(worker).history().traced,
        ensures
            final(worker).history().ran == old(worker).history().ran + calls_since(
                old(worker).history().ran,
                final(worker).history().ran,
            ),
            final(worker).history().ran.len() == old(worker).history().ran.len() + final(run).packets,
            ran_in_turn(
                old(plan)@,
                old(meta)@,
                calls_since(old(worker).history().ran, final(worker).history().ran),
            ),
            counts_rise(
                old(worker).history().traced,
                calls_since(old(worker).history().ran, final(worker).history().ran),
            ),
            final(worker).history().traced == traced_after(
                old(worker).history().traced,
                calls_since(old(worker).history().ran, final(worker).history().ran),
            ),
            final(plan)@ == plan_after(
                old(plan)@,
                calls_since(old(worker).history().ran, final(worker).history().ran),
            ),
            final(meta)@ == tables_after(
                old(meta)@,
                calls_since(old(worker).history().ran, final(worker).history().ran),
            ),
            exists|times: Seq<u64>| #[trigger]
                self.ended_after(
                    *old(run),
                    calls_since(old(worker).history().ran, final(worker).history().ran),
                    times,
                    ending,
                    *final(run),
                ),
            leaves_parked(ending, *final(run), final(plan)@),
            old(plan)@.parked_marking.len() == 0 ==> ending == MarkEnding::Drained,
    {
        let ghost first: MarkRun = *run;
        let ghost v: BactrianView = plan@;
        let ghost m: MetadataView = meta@;
        let ghost ran: Seq<PacketCall> = worker.history().ran;
        let ghost mut calls: Seq<PacketCall> = Seq::empty();
        let ghost mut times: Seq<u64> = Seq::empty();
        let mut ending: Option<MarkEnding> = None;
        while ending.is_none() && run.packets < usize::MAX
            invariant
                first == *old(run),
                v == old(plan)@,
                m == old(meta)@,
                ran == old(worker).history().ran,
                first.packets == 0,
                first.traced_at_start == old(worker).history().traced,
                run.traced_at_start == first.traced_at_start,
                worker.history().ran == ran + calls,
                run.packets == calls.len(),
                ran_in_turn(v, m, calls),
                counts_rise(first.traced_at_start, calls),
                worker.history().traced == traced_after(first.traced_at_start, calls),
                plan@ == plan_after(v, calls),
                meta@ == tables_after(m, calls),
                self.ended_after(
                    first,
                    calls,
                    times,
                    match ending {
                        Some(ending) => ending,
                        None => MarkEnding::Interrupted,
                    },
                    *run,
                ),
                ending == Some(MarkEnding::Drained) ==> plan@.parked_marking.len() == 0,
                ending == Some(MarkEnding::Interrupted) ==> plan@.parked_marking.len() > 0,
            decreases
                    usize::MAX - run.packets + (if ending is Some {
                        0int
                    } else {
                        1int
                    }),
        {
            let ghost earlier: Seq<PacketCall> = calls;
            let ghost earlier_times: Seq<u64> = times;
            let ghost before: MarkRun = *run;
            let taken: Taken<(bool, Vec<usize>)> = plan.pop_marking_packet();
            let ghost is_packet: bool = taken is Packet;
            ending = self.run_taken(run, plan, meta, worker, taken, started);
            proof {
                if is_packet {
                    let traced = worker.history().traced;
                    let nanos = choose|nanos: u64|
                        {
                            &&& self.budget matches Some(budget) ==> nanos + budget <= u64::MAX
                            &&& *run == #[trigger] self.stepped(before, (traced, nanos))
                            &&& ending == if self.ends(before, (traced, nanos)) {
                                Some(MarkEnding::Expired)
                            } else {
                                None
                            }
                        };
                    let call = worker.history().ran.last();
                    calls = earlier.push(call);
                    times = earlier_times.push(nanos);
                    assert(worker.history().ran =~= ran + calls);
                    lemma_call_added(v, m, first.traced_at_start, earlier, call);
                    lemma_packet_added(*self, first, earlier, earlier_times, before, call, nanos);
                }
            }
        }
        proof {
            assert(calls_since(ran, worker.history().ran) =~= calls);
            if calls.len() > 0 {
                assert(calls.take(0) =~= Seq::empty());
                assert(ran_at_its_turn(v, m, calls, 0));
            }
        }
        match ending {
            Some(ending) => ending,
            None => MarkEnding::Interrupted,
        }
    }

    /// Marks: runs parked packets on the worker, oldest first, until none is left, or until the
    /// quota is met and then the budget is spent. What a packet does and how long it takes is the
    /// worker's; whatever that is, the quantum goes on as long as it must and no longer, leaves the
    /// large-object space as it found it, and keeps what has been handed to marking by then. The
    /// quota of a quantum with a budget goes by the worker's counts.
    pub fn do_work<W: MarkWorker>(
        &self,
        plan: &mut Bactrian,
        meta: &mut HeapMetadata,
        inputs: &QuotaInputs,
        worker: &mut W,
    ) -> (end: MarkEnd)
        requires
            self.budget is Some ==> {
                &&& inputs.fits(old(plan)@.enqueued_at_last_quantum)
                &&& inputs.enqueued == old(worker).history().enqueued
                &&& inputs.satb_enqueued == old(worker).history().satb_enqueued
            },
        ensures
            final(worker).history().ran == old(worker).history().ran + calls_since(
                old(worker).history().ran,
                final(worker).history().ran,
            ),
            final(worker).history().ran.len() == old(worker).history().ran.len() + end.run.packets,
            ran_in_turn(
                with_full_semantics(old(plan)@, true),
                old(meta)@,
                calls_since(old(worker).history().ran, final(worker).history().ran),
            ),
            final(meta)@ == tables_after(
                old(meta)@,
                calls_since(old(worker).history().ran, final(worker).history().ran),
            ),
            final(plan)@ == (BactrianView {
                enqueued_at_last_quantum: handed_to_marking(
                    final(worker).history().enqueued,
                    final(worker).history().satb_enqueued,
                ),
                ..with_full_semantics(
                    plan_after(
                        with_full_semantics(old(plan)@, true),
                        calls_since(old(worker).history().ran, final(worker).history().ran),
                    ),
                    old(plan)@.common.full_semantics,
                )
            }),
            exists|times: Seq<u64>| #[trigger]
                self.ended_after(
                    self.started(old(plan)@, *inputs, old(worker).history().traced),
                    calls_since(old(worker).history().ran, final(worker).history().ran),
                    times,
                    end.ending,
                    end.run,
                ),
            leaves_parked(end.ending, end.run, final(plan)@),
            end.ending == MarkEnding::Expired ==> self.budget is Some && end.report.traced
                >= inputs.quota(old(plan)@.enqueued_at_last_quantum),
            old(plan)@.parked_marking.len() == 0 ==> end.ending == MarkEnding::Drained,
            final(worker).history().traced >= old(worker).history().traced,
            end.report.traced == final(worker).history().traced - old(worker).history().traced,
            end.report == self.reported(end.run, final(worker).history().traced),
    {
        let started: Instant = now();
        let traced: usize = worker.traced();
        let mut run: MarkRun = self.start(plan, inputs, traced);
        let ghost first: MarkRun = run;
        let ghost ran: Seq<PacketCall> = worker.history().ran;
        let ending: MarkEnding = self.run_packets(&mut run, plan, meta, worker, &started);
        let ghost calls: Seq<PacketCall> = calls_since(ran, worker.history().ran);
        proof {
            let times = choose|times: Seq<u64>| #[trigger]
                self.ended_after(first, calls, times, ending, run);
            lemma_ended(*self, first, calls, times, ending, run);
        }
        let enqueued: usize = worker.enqueued();
        let satb: usize = worker.satb_enqueued();
        let satb_enqueued: usize = if satb > usize::MAX - enqueued {
            usize::MAX - enqueued
        } else {
            satb
        };
        let report: MarkReport = self.finish(&run, plan, enqueued, satb_enqueued, worker.traced());
        MarkEnd { ending, run, report, nanos: nanos_since(&started) }
    }
}

/// How many objects have been marked after the packets have run. It was `first` before.
pub open spec fn traced_after(first: usize, calls: Seq<PacketCall>) -> usize {
    if calls.len() == 0 {
        first
    } else {
        calls.last().traced
    }
}

/// One more packet has run.
proof fn lemma_call_added(
    v: BactrianView,
    m: MetadataView,
    first: usize,
    earlier: Seq<PacketCall>,
    call: PacketCall,
)
    requires
        ran_in_turn(v, m, earlier),
        counts_rise(first, earlier),
        ran_oldest(plan_after(v, earlier), tables_after(m, earlier), call),
        call.traced >= traced_after(first, earlier),
    ensures
        ran_in_turn(v, m, earlier.push(call)),
        counts_rise(first, earlier.push(call)),
{
    let calls = earlier.push(call);
    assert forall|k: int| 0 <= k < calls.len() implies #[trigger] ran_at_its_turn(
        v,
        m,
        calls,
        k,
    ) by {
        if k < earlier.len() {
            assert(ran_at_its_turn(v, m, earlier, k));
            assert(calls.take(k) =~= earlier.take(k));
            assert(calls[k] == earlier[k]);
        } else {
            assert(calls.take(k) =~= earlier);
        }
    }
}

/// The quantum after one more packet has run.
proof fn lemma_packet_added(
    quantum: BactrianMarkQuantum,
    first: MarkRun,
    earlier: Seq<PacketCall>,
    earlier_times: Seq<u64>,
    before: MarkRun,
    call: PacketCall,
    nanos: u64,
)
    requires
        quantum.ended_after(first, earlier, earlier_times, MarkEnding::Interrupted, before),
        quantum.budget matches Some(budget) ==> nanos + budget <= u64::MAX,
    ensures
        quantum.ended_after(
            first,
            earlier.push(call),
            earlier_times.push(nanos),
            if quantum.ends(before, (call.traced, nanos)) {
                MarkEnding::Expired
            } else {
                MarkEnding::Interrupted
            },
            quantum.stepped(before, (call.traced, nanos)),
        ),
{
    let was = packets_done(earlier, earlier_times);
    let done = packets_done(earlier.push(call), earlier_times.push(nanos));
    assert(done =~= was.push((call.traced, nanos)));
    assert(done.drop_last() =~= was);
    assert(was.take(was.len() as int) =~= was);
    if !quantum.ends(before, (call.traced, nanos)) {
        assert forall|k: int| 0 <= k < done.len() implies !#[trigger] quantum.ends_at(
            first,
            done,
            k,
        ) by {
            if k < was.len() {
                assert(!quantum.ends_at(first, was, k));
                assert(done.take(k) =~= was.take(k));
                assert(done[k] == was[k]);
            } else {
                assert(done.take(k) =~= was);
            }
        }
    }
}

/// What the end of a quantum says of its quota.
proof fn lemma_ended(
    quantum: BactrianMarkQuantum,
    first: MarkRun,
    calls: Seq<PacketCall>,
    times: Seq<u64>,
    ending: MarkEnding,
    run: MarkRun,
)
    requires
        quantum.ended_after(first, calls, times, ending, run),
        counts_rise(first.traced_at_start, calls),
        first.deadline is None,
    ensures
        run.quota == first.quota,
        run.traced_at_start == first.traced_at_start,
        run.was_full == first.was_full,
        first.traced_at_start <= traced_after(first.traced_at_start, calls),
        ending == MarkEnding::Expired ==> quantum.budget is Some && traced_after(
            first.traced_at_start,
            calls,
        ) - first.traced_at_start >= (match first.quota {
            Some(quota) => quota as int,
            None => 0,
        }),
{
    let done = packets_done(calls, times);
    lemma_run_keeps(quantum, first, done);
    if ending == MarkEnding::Expired {
        law_quota_comes_before_the_budget(quantum, first, done);
        let i = choose|i: int|
            0 <= i < done.len() - 1 && quantum.quota_met(first, #[trigger] done[i])
                && done.last().1 >= done[i].1 + quantum.budget->0;
        assert(calls[i].traced <= calls[calls.len() - 1].traced);
    }
}

/// What packets leave unchanged in a quantum.
proof fn lemma_run_keeps(quantum: BactrianMarkQuantum, first: MarkRun, done: Seq<PacketDone>)
    ensures
        quantum.run_for(first, done).quota == first.quota,
        quantum.run_for(first, done).traced_at_start == first.traced_at_start,
        quantum.run_for(first, done).was_full == first.was_full,
    decreases done.len(),
{
    if done.len() > 0 {
        lemma_run_keeps(quantum, first, done.drop_last());
    }
}

/// The plan with traces that mark the large objects of all ages, or not.
pub open spec fn with_full_semantics(v: BactrianView, full: bool) -> BactrianView {
    BactrianView { common: CommonView { full_semantics: full, ..v.common }, ..v }
}

/// A mark quantum leaves the large-object space as it found it.
pub proof fn law_quantum_restores_the_semantics(v: BactrianView)
    ensures
        with_full_semantics(with_full_semantics(v, true), v.common.full_semantics) == v,
{
}

/// A mark quantum without a budget that is not interrupted ends only when no packet is left.
pub proof fn law_unbudgeted_quantum_marks_all(
    quantum: BactrianMarkQuantum,
    first: MarkRun,
    calls: Seq<PacketCall>,
    times: Seq<u64>,
    ending: MarkEnding,
    run: MarkRun,
    v: BactrianView,
)
    requires
        quantum.budget is None,
        quantum.ended_after(first, calls, times, ending, run),
        leaves_parked(ending, run, v),
        ending != MarkEnding::Interrupted,
    ensures
        v.parked_marking.len() == 0,
{
}

/// A mark quantum with a budget that ends while packets are left has met its quota, and has then
/// spent its whole budget.
pub proof fn law_quota_comes_before_the_budget(
    quantum: BactrianMarkQuantum,
    run: MarkRun,
    done: Seq<PacketDone>,
)
    requires
        done.len() > 0,
        run.deadline is None,
        quantum.budget matches Some(budget) && forall|i: int|
            0 <= i < done.len() ==> (#[trigger] done[i]).1 + budget <= u64::MAX,
        quantum.ends(quantum.run_for(run, done.drop_last()), done.last()),
    ensures
        exists|i: int|
            0 <= i < done.len() - 1 && quantum.quota_met(run, #[trigger] done[i])
                && done.last().1 >= done[i].1 + quantum.budget->0,
{
    let earlier = done.drop_last();
    lemma_deadline(quantum, run, earlier);
    let deadline = quantum.run_for(run, earlier).deadline->0;
    let i = choose|i: int|
        0 <= i < earlier.len() && quantum.quota_met(run, #[trigger] earlier[i]) && deadline
            == earlier[i].1 + quantum.budget->0;
    assert(done[i] == earlier[i]);
}

/// Where the time at which a quantum ends comes from.
proof fn lemma_deadline(quantum: BactrianMarkQuantum, run: MarkRun, done: Seq<PacketDone>)
    requires
        run.deadline is None,
        quantum.budget matches Some(budget) && forall|i: int|
            0 <= i < done.len() ==> (#[trigger] done[i]).1 + budget <= u64::MAX,
    ensures
        quantum.run_for(run, done).quota == run.quota,
        quantum.run_for(run, done).traced_at_start == run.traced_at_start,
        quantum.run_for(run, done).deadline matches Some(deadline) ==> exists|i: int|
            0 <= i < done.len() && quantum.quota_met(run, #[trigger] done[i]) && deadline
                == done[i].1 + quantum.budget->0,
    decreases done.len(),
{
    if done.len() > 0 {
        let earlier = done.drop_last();
        assert forall|i: int| 0 <= i < earlier.len() implies (#[trigger] earlier[i]).1
            + quantum.budget->0 <= u64::MAX by {
            assert(earlier[i] == done[i]);
        }
        lemma_deadline(quantum, run, earlier);
        let before = quantum.run_for(run, earlier);
        let after = quantum.run_for(run, done);
        if let Some(deadline) = before.deadline {
            let i = choose|i: int|
                0 <= i < earlier.len() && quantum.quota_met(run, #[trigger] earlier[i]) && deadline
                    == earlier[i].1 + quantum.budget->0;
            assert(done[i] == earlier[i]);
        } else if after.deadline is Some {
            let i = done.len() - 1;
            assert(quantum.quota_met(run, done[i]));
        }
    }
}

} // verus!
