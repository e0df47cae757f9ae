//! The send phase: what is offered for spending, what is under way, and what has been accepted.
//!
//! The loop around it waits for ticks, fetches outputs and submits transactions; this module takes
//! every decision in between. Moments are nanoseconds on a clock of the caller's that never runs
//! backwards.
use rayon::iter::{IntoParallelIterator, ParallelIterator};
use vstd::prelude::*;

use crate::builders::{create_spam_transaction, is_signed, spam_outputs, unsigned_transaction};
use crate::chain::script_of;
use crate::config::{
    BASE_FEE_RATE, LOW_UTXO_MARK, MAX_INFLIGHT, MAX_PENDING_AGE_SECS, MIN_CHANGE_SOMPI, SAFE_TPS,
    UTXO_REFRESH_SECS,
};
use crate::fees::{mass, required_fee_base};
use crate::keys::SecretKey;
use crate::outpoints::{age, recent, OutpointMap};
use crate::tx::{
    unsigned_keeps_the_rest, utxo_views, Address, AddressView, Outpoint, Transaction,
    TransactionView, Utxo, UtxoView,
};

verus! {

/// The nanoseconds in a second.
pub const NANOS_PER_SEC: u128 = 1_000_000_000;

/// The nanoseconds that a reservation may last.
pub const MAX_PENDING_AGE_NANOS: u128 = MAX_PENDING_AGE_SECS as u128 * NANOS_PER_SEC;

/// The rate that is aimed at: the requested one, capped unless the cap is lifted.
pub open spec fn rate(target_tps: u64, unleashed: bool) -> u64 {
    if unleashed || target_tps <= SAFE_TPS {
        target_tps
    } else {
        SAFE_TPS
    }
}

/// Gives the rate that is aimed at.
pub fn effective_tps(target_tps: u64, unleashed: bool) -> (tps: u64)
    ensures
        tps == rate(target_tps, unleashed),
        unleashed ==> tps == target_tps,
        !unleashed ==> tps == (if target_tps <= SAFE_TPS {
            target_tps
        } else {
            SAFE_TPS
        }),
{
    if unleashed || target_tps <= SAFE_TPS {
        target_tps
    } else {
        SAFE_TPS
    }
}

/// The fee of one payment.
pub open spec fn payment_fee() -> int {
    BASE_FEE_RATE * mass()
}

/// Whether an output is worth a payment: what is left after the fee is no dust.
pub open spec fn payable(utxo: UtxoView) -> bool {
    utxo.entry.amount - payment_fee() >= MIN_CHANGE_SOMPI
}

/// The outputs of a list that are worth a payment.
pub open spec fn payable_part(utxos: Seq<UtxoView>) -> Seq<UtxoView> {
    utxos.filter(|u: UtxoView| payable(u))
}

/// A payment that is ready to be submitted, and the outpoint that it spends.
#[derive(Debug, PartialEq, Eq)]
pub struct SpamJob {
    pub transaction: Transaction,
    pub outpoint: Outpoint,
}

/// Whether the transaction pays all of the output but the fee back to the address, signed with
/// the key.
pub open spec fn is_payment(
    tx: TransactionView,
    utxo: UtxoView,
    key: Seq<u8>,
    address: AddressView,
) -> bool {
    is_signed(
        tx,
        unsigned_transaction(
            utxo.outpoint,
            spam_outputs(script_of(address), (utxo.entry.amount - payment_fee()) as u64),
        ),
        utxo.entry,
        key,
    )
}

/// Makes the payment that spends the output, unless too little would be left of it.
pub fn spam_job(utxo: Utxo, key: &SecretKey, address: &Address) -> (job: Option<SpamJob>)
    requires
        address@.well_formed(),
    ensures
        job is Some <==> payable(utxo@),
        job is Some <==> utxo.entry.amount >= 1_001_700,
        job matches Some(job) ==> job.outpoint == utxo.outpoint && is_payment(
            job.transaction@,
            utxo@,
            key@,
            address@,
        ),
        job matches Some(job) ==> job.transaction@.outputs.len() == 1
            && job.transaction@.outputs[0].value == utxo.entry.amount - 1_700,
{
    let fee = required_fee_base(1, 1);
    let output_amount = utxo.entry.amount.saturating_sub(fee);
    if output_amount < MIN_CHANGE_SOMPI {
        return None;
    }
    let transaction = create_spam_transaction(key, &utxo, output_amount, address);
    proof {
        unsigned_keeps_the_rest(transaction@);
    }
    Some(SpamJob { transaction, outpoint: utxo.outpoint })
}

/// Whether the jobs are the payments that spend the outputs, one for each and in their order.
pub open spec fn are_payments(
    jobs: Seq<SpamJob>,
    utxos: Seq<UtxoView>,
    key: Seq<u8>,
    address: AddressView,
) -> bool {
    &&& jobs.len() == utxos.len()
    &&& forall|k: int|
        0 <= k < jobs.len() ==> (#[trigger] jobs[k]).outpoint == utxos[k].outpoint && is_payment(
            jobs[k].transaction@,
            utxos[k],
            key,
            address,
        )
}

/// `rayon`'s `into_par_iter`, `filter_map` and `collect`: calls [`spam_job`] on every output, on
/// many threads, and keeps what it makes in the order of the outputs.
#[verifier::external_body]
fn spam_jobs(batch: Vec<Utxo>, key: &SecretKey, address: &Address) -> (jobs: Vec<SpamJob>)
    requires
        address@.well_formed(),
    ensures
        are_payments(jobs@, payable_part(utxo_views(batch@)), key@, address@),
{
    batch.into_par_iter().filter_map(|utxo| spam_job(utxo, key, address)).collect()
}

/// What is to be done at a tick.
#[derive(Clone, Copy, Debug, PartialEq, Eq, Structural)]
pub enum TickDecision {
    /// The time is up.
    Finish,
    /// The outputs are to be fetched again before anything is sent.
    Refresh,
    /// Sending goes on.
    Proceed,
}

/// A payment, and the connection that it goes out on.
#[derive(Debug, PartialEq, Eq)]
pub struct Submission {
    pub client: usize,
    pub transaction: Transaction,
    pub outpoint: Outpoint,
}

/// The figures of the time since the last report.
#[derive(Clone, Copy, Debug, PartialEq, Eq)]
pub struct StatsReport {
    pub elapsed_nanos: u128,
    pub sent: u64,
    pub pending: usize,
    pub utxos_left: usize,
    pub runtime_secs: u128,
}

/// The model of [`SendLoop`].
#[verifier::ext_equal]
pub struct SendState {
    /// When each outpoint was reserved that may still be under way.
    pub pending: Map<Outpoint, u128>,
    /// The outpoints whose spending the node has accepted.
    pub spent: Set<Outpoint>,
    /// The outputs of the last fetch, and how many of them have been taken.
    pub utxos: Seq<UtxoView>,
    pub idx: int,
    /// When they were fetched.
    pub last_refresh: u128,
    /// How many connections there are, and which one is next.
    pub clients: int,
    pub next_client: int,
    /// When sending began, and for how many seconds it goes on; 0 means forever.
    pub start: u128,
    pub duration_seconds: u64,
    /// When the last report was made, and how many payments were accepted since.
    pub stats_start: u128,
    pub sent: u64,
}

/// The whole seconds that have passed.
pub open spec fn elapsed_secs(now: u128, since: u128) -> int {
    age(now, since) / NANOS_PER_SEC as int
}

/// The outpoints of a list of outputs.
pub open spec fn outpoints_of(utxos: Seq<UtxoView>) -> Set<Outpoint> {
    utxos.map_values(|u: UtxoView| u.outpoint).to_set()
}

/// The reservations once the outputs are reserved too.
pub open spec fn reserved(pending: Map<Outpoint, u128>, utxos: Seq<UtxoView>, now: u128) -> Map<
    Outpoint,
    u128,
> {
    pending.union_prefer_right(
        Map::new(|o: Outpoint| outpoints_of(utxos).contains(o), |o: Outpoint| now),
    )
}

impl SendState {
    /// Fewer outputs are taken than there are, and the next connection is one of those there are.
    pub open spec fn well_formed(self) -> bool {
        &&& 0 <= self.idx <= self.utxos.len()
        &&& 0 <= self.next_client < self.clients
    }

    /// Whether the outpoint is reserved or spent.
    pub open spec fn taken(self, outpoint: Outpoint) -> bool {
        self.pending.contains_key(outpoint) || self.spent.contains(outpoint)
    }

    /// What is to be done at a tick.
    pub open spec fn decision(self, now: u128) -> TickDecision {
        if self.duration_seconds > 0 && elapsed_secs(now, self.start) >= self.duration_seconds {
            TickDecision::Finish
        } else if elapsed_secs(now, self.last_refresh) >= UTXO_REFRESH_SECS || self.idx
            + LOW_UTXO_MARK >= self.utxos.len() {
            TickDecision::Refresh
        } else {
            TickDecision::Proceed
        }
    }

    /// The state once the outputs are fetched again: those that are reserved or spent are left
    /// out.
    pub open spec fn refreshed(self, fresh: Seq<UtxoView>, now: u128) -> SendState {
        SendState {
            utxos: fresh.filter(|u: UtxoView| !self.taken(u.outpoint)),
            idx: 0,
            last_refresh: now,
            ..self
        }
    }

    /// Whether anything may be sent: outputs are left, and not too much is under way.
    pub open spec fn ready(self, inflight: int) -> bool {
        self.idx < self.utxos.len() && inflight < MAX_INFLIGHT
    }

    /// How many outputs are taken when `intended` payments are due.
    pub open spec fn batch_size(self, intended: int, inflight: int) -> int {
        let left = self.utxos.len() - self.idx;
        let room = if inflight < MAX_INFLIGHT {
            MAX_INFLIGHT - inflight
        } else {
            0
        };
        if intended <= left && intended <= room {
            intended
        } else if left <= room {
            left
        } else {
            room
        }
    }

    /// The next `n` outputs that are worth a payment.
    pub open spec fn next_payable(self, n: int) -> Seq<UtxoView> {
        payable_part(self.utxos.subrange(self.idx, self.idx + n))
    }

    /// The state once the next `n` outputs are taken: those worth a payment are reserved, and old
    /// reservations are dropped.
    pub open spec fn after_batch(self, n: int, now: u128) -> SendState {
        if n == 0 {
            self
        } else {
            SendState {
                pending: recent(
                    reserved(self.pending, self.next_payable(n), now),
                    now,
                    MAX_PENDING_AGE_NANOS,
                ),
                idx: self.idx + n,
                next_client: (self.next_client + n) % self.clients,
                ..self
            }
        }
    }

    /// The state once the node has answered the submission that spends the outpoint.
    pub open spec fn answered(self, outpoint: Outpoint, accepted: bool) -> SendState {
        if accepted {
            SendState {
                spent: self.spent.insert(outpoint),
                sent: (self.sent + 1) as u64,
                ..self
            }
        } else {
            SendState { pending: self.pending.remove(outpoint), ..self }
        }
    }

    /// The state once the figures have been reported: they are counted anew.
    pub open spec fn reported(self, now: u128) -> SendState {
        SendState { stats_start: now, sent: 0, ..self }
    }
}

/// The state of the send phase.
pub struct SendLoop {
    pending: OutpointMap<u128>,
    spent: OutpointMap<()>,
    utxos: Vec<Utxo>,
    idx: usize,
    last_refresh: u128,
    clients: usize,
    next_client: usize,
    start: u128,
    duration_seconds: u64,
    stats_start: u128,
    sent: u64,
}

impl View for SendLoop {
    type V = SendState;

    closed spec fn view(&self) -> SendState {
        SendState {
            pending: self.pending@,
            spent: self.spent@.dom(),
            utxos: utxo_views(self.utxos@),
            idx: self.idx as int,
            last_refresh: self.last_refresh,
            clients: self.clients as int,
            next_client: self.next_client as int,
            start: self.start,
            duration_seconds: self.duration_seconds,
            stats_start: self.stats_start,
            sent: self.sent,
        }
    }
}

impl SendLoop {
    /// The maps are sound, and so are the positions.
    pub closed spec fn well_formed(&self) -> bool {
        &&& self.pending.well_formed()
        &&& self.spent.well_formed()
        &&& self@.well_formed()
        &&& self.clients + MAX_INFLIGHT <= usize::MAX
    }

    /// The model of a sound loop is well-formed.
    pub proof fn model_is_well_formed(&self)
        requires
            self.well_formed(),
        ensures
            self@.well_formed(),
    {
    }

    /// Begins at `start` with nothing reserved and the outputs fetched at `fetched`.
    pub fn new(
        utxos: Vec<Utxo>,
        clients: usize,
        duration_seconds: u64,
        start: u128,
        fetched: u128,
    ) -> (state: SendLoop)
        requires
            0 < clients,
            clients + MAX_INFLIGHT <= usize::MAX,
        ensures
            state.well_formed(),
            state@ == (SendState {
                pending: Map::empty(),
                spent: Set::empty(),
                utxos: utxo_views(utxos@),
                idx: 0,
                last_refresh: fetched,
                clients: clients as int,
                next_client: 0,
                start,
                duration_seconds,
                stats_start: start,
                sent: 0,
            }),
    {
        let state = SendLoop {
            pending: OutpointMap::new(),
            spent: OutpointMap::new(),
            utxos,
            idx: 0,
            last_refresh: fetched,
            clients,
            next_client: 0,
            start,
            duration_seconds,
            stats_start: start,
            sent: 0,
        };
        assert(state@.spent =~= Set::empty());
        state
    }

    /// Decides what is to be done at a tick.
    pub fn on_tick(&self, now: u128) -> (decision: TickDecision)
        requires
            self.well_formed(),
        ensures
            decision == self@.decision(now),
            decision == TickDecision::Finish <==> self@.duration_seconds > 0 && now - self@.start
                >= self@.duration_seconds * 1_000_000_000,
    {
        let running: u128 = now.saturating_sub(self.start) / NANOS_PER_SEC;
        if self.duration_seconds > 0 && running >= self.duration_seconds as u128 {
            return TickDecision::Finish;
        }
        let since_refresh: u128 = now.saturating_sub(self.last_refresh) / NANOS_PER_SEC;
        if since_refresh >= UTXO_REFRESH_SECS as u128 || self.idx
            >= self.utxos.len().saturating_sub(LOW_UTXO_MARK) {
            return TickDecision::Refresh;
        }
        TickDecision::Proceed
    }

    /// Takes in the outputs fetched at `now`, without those that are reserved or spent.
    pub fn refresh(&mut self, fresh: Vec<Utxo>, now: u128)
        requires
            old(self).well_formed(),
        ensures
            final(self).well_formed(),
            final(self)@ == old(self)@.refreshed(utxo_views(fresh@), now),
    {
        let ghost state = self@;
        let ghost views = utxo_views(fresh@);
        let ghost free = |u: UtxoView| !state.taken(u.outpoint);
        let mut kept: Vec<Utxo> = Vec::new();
        let mut i: usize = 0;
        assert(views.take(0).filter(free) =~= Seq::empty()) by {
            reveal(Seq::filter);
        }
        while i < fresh.len()
            invariant
                0 <= i <= fresh.len(),
                self.well_formed(),
                self@ == state,
                views == utxo_views(fresh@),
                free == (|u: UtxoView| !state.taken(u.outpoint)),
                utxo_views(kept@) =~= views.take(i as int).filter(free),
            decreases fresh.len() - i,
        {
            let ghost so_far = kept@;
            proof {
                reveal(Seq::filter);
                assert(views[i as int] == fresh[i as int]@);
                assert(views.take(i + 1).drop_last() =~= views.take(i as int));
                assert(views.take(i + 1).last() == views[i as int]);
            }
            if !self.pending.contains(&fresh[i].outpoint) && !self.spent.contains(
                &fresh[i].outpoint,
            ) {
                kept.push(fresh[i].clone());
                proof {
                    assert(utxo_views(kept@) =~= utxo_views(so_far).push(views[i as int]));
                }
            }
            i += 1;
        }
        assert(views.take(fresh.len() as int) =~= views);
        self.utxos = kept;
        self.idx = 0;
        self.last_refresh = now;
    }

    /// How many outpoints are reserved.
    pub fn pending_count(&self) -> (count: usize)
        requires
            self.well_formed(),
        ensures
            count == self@.pending.dom().len(),
    {
        self.pending.len()
    }

    /// How many outpoints the node has accepted the spending of.
    pub fn spent_count(&self) -> (count: usize)
        requires
            self.well_formed(),
        ensures
            count == self@.spent.len(),
    {
        self.spent.len()
    }

    /// How many payments were accepted since the last report.
    pub fn sent_count(&self) -> (count: u64)
        ensures
            count == self@.sent,
    {
        self.sent
    }

    /// How many of the outputs are left.
    pub fn utxos_left(&self) -> (count: usize)
        requires
            self.well_formed(),
        ensures
            count == self@.utxos.len() - self@.idx,
    {
        self.utxos.len() - self.idx
    }

    /// Tells whether anything may be sent while `inflight` submissions are under way.
    pub fn can_send(&self, inflight: usize) -> (yes: bool)
        requires
            self.well_formed(),
        ensures
            yes == self@.ready(inflight as int),
    {
        self.idx < self.utxos.len() && inflight < MAX_INFLIGHT
    }

    /// Takes the next outputs, as many as are due, are left and may be under way, makes the
    /// payments that spend them, and reserves what those spend. Each goes out on the next
    /// connection.
    pub fn send_batch(
        &mut self,
        intended: u64,
        inflight: usize,
        key: &SecretKey,
        address: &Address,
        now: u128,
    ) -> (submissions: Vec<Submission>)
        requires
            old(self).well_formed(),
            old(self)@.pending.dom().len() + MAX_INFLIGHT <= usize::MAX,
            address@.well_formed(),
        ensures
            final(self).well_formed(),
            final(self)@ == old(self)@.after_batch(
                old(self)@.batch_size(intended as int, inflight as int),
                now,
            ),
            are_submissions(
                submissions@,
                old(self)@.next_payable(
                    old(self)@.batch_size(intended as int, inflight as int),
                ),
                key@,
                address@,
                old(self)@.next_client,
                old(self)@.clients,
            ),
    {
        let ghost state = self@;
        let left: usize = self.utxos.len() - self.idx;
        let room: usize = MAX_INFLIGHT.saturating_sub(inflight);
        let limit: usize = if left <= room {
            left
        } else {
            room
        };
        let taken: usize = if intended <= limit as u64 {
            intended as usize
        } else {
            limit
        };
        assert(taken == state.batch_size(intended as int, inflight as int));
        if taken == 0 {
            assert(state.utxos.subrange(state.idx, state.idx) =~= Seq::empty());
            assert(state.next_payable(0) =~= Seq::empty()) by {
                reveal(Seq::filter);
            }
            return Vec::new();
        }
        let batch = self.copy_next(taken);
        let jobs = spam_jobs(batch, key, address);
        let ghost due = state.next_payable(taken as int);
        proof {
            state.utxos.subrange(state.idx, state.idx + taken).lemma_filter_len(
                |u: UtxoView| payable(u),
            );
        }
        self.reserve(&jobs, Ghost(due), now);
        let submissions = assign_clients(jobs, self.next_client, self.clients);
        self.next_client = (self.next_client + taken) % self.clients;
        self.idx = self.idx + taken;
        self.pending.retain_recent(now, MAX_PENDING_AGE_NANOS);
        proof {
            assert(self@ =~= state.after_batch(taken as int, now));
        }
        submissions
    }

    /// Copies the next outputs.
    fn copy_next(&self, n: usize) -> (batch: Vec<Utxo>)
        requires
            self.well_formed(),
            self@.idx + n <= self@.utxos.len(),
        ensures
            utxo_views(batch@) == self@.utxos.subrange(self@.idx, self@.idx + n),
    {
        let mut batch: Vec<Utxo> = Vec::new();
        let mut i: usize = 0;
        while i < n
            invariant
                0 <= i <= n,
                self@.idx == self.idx,
                self@.utxos == utxo_views(self.utxos@),
                self.idx + n <= self.utxos.len(),
                batch.len() == i,
                forall|j: int|
                    0 <= j < i ==> (#[trigger] batch@[j])@ == self@.utxos[self.idx + j],
            decreases n - i,
        {
            batch.push(self.utxos[self.idx + i].clone());
            i += 1;
        }
        assert(utxo_views(batch@) =~= self@.utxos.subrange(self@.idx, self@.idx + n));
        batch
    }

    /// Reserves what the jobs spend, which is the outputs `due`.
    fn reserve(&mut self, jobs: &Vec<SpamJob>, due: Ghost<Seq<UtxoView>>, now: u128)
        requires
            old(self).well_formed(),
            jobs.len() == due@.len(),
            forall|k: int|
                0 <= k < jobs.len() ==> (#[trigger] jobs@[k]).outpoint == due@[k].outpoint,
            old(self)@.pending.dom().len() + jobs.len() <= usize::MAX,
        ensures
            final(self).well_formed(),
            final(self)@ == (SendState {
                pending: reserved(old(self)@.pending, due@, now),
                ..old(self)@
            }),
    {
        let ghost state = self@;
        let mut i: usize = 0;
        assert(reserved(state.pending, due@.take(0), now) =~= state.pending);
        while i < jobs.len()
            invariant
                0 <= i <= jobs.len(),
                self.well_formed(),
                jobs.len() == due@.len(),
                forall|k: int|
                    0 <= k < jobs.len() ==> (#[trigger] jobs@[k]).outpoint == due@[k].outpoint,
                state.pending.dom().len() + jobs.len() <= usize::MAX,
                self@.pending.dom().len() <= state.pending.dom().len() + i,
                self@ == (SendState {
                    pending: reserved(state.pending, due@.take(i as int), now),
                    ..state
                }),
            decreases jobs.len() - i,
        {
            let ghost before = self@.pending;
            proof {
                self.pending.is_finite();
            }
            self.pending.insert(jobs[i].outpoint, now);
            proof {
                reserve_one_more(state.pending, due@, i as int, now);
                assert(self@.pending =~= before.insert(jobs[i as int].outpoint, now));
                assert(self@.pending.dom() =~= before.dom().insert(jobs[i as int].outpoint));
                assert(self@ =~= SendState {
                    pending: reserved(state.pending, due@.take(i + 1), now),
                    ..state
                });
            }
            i += 1;
        }
        assert(due@.take(jobs.len() as int) =~= due@);
    }

    /// Takes in the node's answer to the submission that spends the outpoint: once accepted it is
    /// never offered again, and once refused it is free to be tried again.
    pub fn on_answer(&mut self, outpoint: Outpoint, accepted: bool)
        requires
            old(self).well_formed(),
            accepted ==> old(self)@.sent < u64::MAX,
            accepted ==> old(self)@.spent.len() < usize::MAX,
        ensures
            final(self).well_formed(),
            final(self)@ == old(self)@.answered(outpoint, accepted),
    {
        let ghost state = self@;
        if accepted {
            self.spent.insert(outpoint, ());
            self.sent = self.sent + 1;
            assert(self@ =~= state.answered(outpoint, accepted));
        } else {
            self.pending.remove(&outpoint);
        }
    }

    /// Reports the figures of the time since the last report, and begins to count anew.
    pub fn report(&mut self, now: u128) -> (report: StatsReport)
        requires
            old(self).well_formed(),
        ensures
            final(self).well_formed(),
            final(self)@ == old(self)@.reported(now),
            report.elapsed_nanos == age(now, old(self)@.stats_start),
            report.sent == old(self)@.sent,
            report.pending == old(self)@.pending.dom().len(),
            report.utxos_left == old(self)@.utxos.len() - old(self)@.idx,
            report.runtime_secs == elapsed_secs(now, old(self)@.start),
    {
        let report = StatsReport {
            elapsed_nanos: now.saturating_sub(self.stats_start),
            sent: self.sent,
            pending: self.pending.len(),
            utxos_left: self.utxos_left(),
            runtime_secs: now.saturating_sub(self.start) / NANOS_PER_SEC,
        };
        self.stats_start = now;
        self.sent = 0;
        report
    }
}

/// Whether the submissions are the payments that spend the outputs, one for each and in their
/// order, on connections that follow one another from `first`.
pub open spec fn are_submissions(
    submissions: Seq<Submission>,
    utxos: Seq<UtxoView>,
    key: Seq<u8>,
    address: AddressView,
    first: int,
    clients: int,
) -> bool {
    &&& submissions.len() == utxos.len()
    &&& forall|k: int|
        0 <= k < submissions.len() ==> {
            let submission = #[trigger] submissions[k];
            &&& submission.outpoint == utxos[k].outpoint
            &&& submission.client == (first + k) % clients
            &&& is_payment(submission.transaction@, utxos[k], key, address)
        }
}

/// Reserving one more output adds its outpoint.
proof fn reserve_one_more(pending: Map<Outpoint, u128>, due: Seq<UtxoView>, i: int, now: u128)
    requires
        0 <= i < due.len(),
    ensures
        reserved(pending, due.take(i + 1), now) =~= reserved(pending, due.take(i), now).insert(
            due[i].outpoint,
            now,
        ),
{
    let pick = |u: UtxoView| u.outpoint;
    let earlier = due.take(i).map_values(pick);
    assert(due.take(i + 1).map_values(pick) =~= earlier.push(due[i].outpoint));
    assert(earlier.push(due[i].outpoint).to_set() =~= earlier.to_set().insert(due[i].outpoint)) by {
        broadcast use vstd::seq_lib::group_seq_properties;

    }
}

/// Hands each job to the next connection.
fn assign_clients(jobs: Vec<SpamJob>, first: usize, clients: usize) -> (submissions: Vec<
    Submission,
>)
    requires
        first < clients,
        clients + jobs.len() <= usize::MAX,
    ensures
        submissions.len() == jobs.len(),
        forall|k: int|
            0 <= k < jobs.len() ==> {
                let submission = #[trigger] submissions@[k];
                &&& submission.transaction == jobs@[k].transaction
                &&& submission.outpoint == jobs@[k].outpoint
                &&& submission.client == (first + k) % (clients as int)
            },
{
    let ghost all = jobs@;
    let count = jobs.len();
    let mut submissions: Vec<Submission> = Vec::new();
    let mut i: usize = 0;
    for job in it: jobs
        invariant
            it.seq() == all,
            count == all.len(),
            i == it.index(),
            first < clients,
            clients + count <= usize::MAX,
            submissions.len() == i,
            forall|k: int|
                0 <= k < i ==> {
                    let submission = #[trigger] submissions@[k];
                    &&& submission.transaction == all[k].transaction
                    &&& submission.outpoint == all[k].outpoint
                    &&& submission.client == (first + k) % (clients as int)
                },
    {
        submissions.push(
            Submission {
                client: (first + i) % clients,
                transaction: job.transaction,
                outpoint: job.outpoint,
            },
        );
        i += 1;
    }
    submissions
}

} // verus!
