//! What the send phase promises over many ticks, fetches and answers.
use vstd::prelude::*;

use crate::builders::{signed_transaction_in_full, spam_outputs, unsigned_transaction};
use crate::chain::{script_of, signature_verifies, x_only_public_key_of};
use crate::config::{AMOUNT_PER_UTXO, MAX_INFLIGHT, MIN_CHANGE_SOMPI};
use crate::outpoints::age;
use crate::spam::{
    are_submissions, elapsed_secs, is_payment, outpoints_of, payable, payable_part, payment_fee,
    rate, SendState, Submission, TickDecision, MAX_PENDING_AGE_NANOS, NANOS_PER_SEC,
};
use crate::tx::{AddressView, Outpoint, TransactionView, UtxoView};

verus! {

broadcast use vstd::seq_lib::group_filter_ensures;

/// Whether no two outputs have the same outpoint.
pub open spec fn distinct_outpoints(utxos: Seq<UtxoView>) -> bool {
    forall|i: int, j: int|
        0 <= i < j < utxos.len() ==> (#[trigger] utxos[i]).outpoint != (
        #[trigger] utxos[j]).outpoint
}

/// Whether the outputs that are left are all different, and none is reserved or spent.
pub open spec fn offers_are_free(state: SendState) -> bool {
    &&& distinct_outpoints(state.utxos)
    &&& forall|i: int|
        state.idx <= i < state.utxos.len() ==> !state.taken((#[trigger] state.utxos[i]).outpoint)
}

/// Filtering keeps outpoints apart.
proof fn filter_keeps_distinct(utxos: Seq<UtxoView>, pred: spec_fn(UtxoView) -> bool)
    requires
        distinct_outpoints(utxos),
    ensures
        distinct_outpoints(utxos.filter(pred)),
    decreases utxos.len(),
{
    reveal(Seq::filter);
    if utxos.len() > 0 {
        let earlier = utxos.drop_last();
        assert(distinct_outpoints(earlier)) by {
            assert forall|i: int, j: int| 0 <= i < j < earlier.len() implies (
            #[trigger] earlier[i]).outpoint != (#[trigger] earlier[j]).outpoint by {
                assert(utxos[i].outpoint != utxos[j].outpoint);
            }
        }
        filter_keeps_distinct(earlier, pred);
        let kept = earlier.filter(pred);
        if pred(utxos.last()) {
            assert forall|i: int| 0 <= i < kept.len() implies (#[trigger] kept[i]).outpoint
                != utxos.last().outpoint by {
                assert(kept.contains(kept[i]));
                earlier.lemma_filter_contains_rev(pred, kept[i]);
                let k = earlier.index_of(kept[i]);
                assert(utxos[k].outpoint != utxos[utxos.len() - 1].outpoint);
            }
        }
    }
}

/// Where nothing is reserved or spent yet, different outputs are all free: sending begins so.
pub proof fn beginnings_are_free(state: SendState)
    requires
        state.pending == Map::<Outpoint, u128>::empty(),
        state.spent == Set::<Outpoint>::empty(),
        distinct_outpoints(state.utxos),
    ensures
        offers_are_free(state),
{
}

/// A fetch offers exactly the fetched outputs that are neither reserved nor spent: what the node
/// has accepted is never offered again.
pub proof fn refresh_offers_the_free(state: SendState, fresh: Seq<UtxoView>, now: u128)
    ensures
        forall|u: UtxoView|
            state.refreshed(fresh, now).utxos.contains(u) <==> fresh.contains(u) && !state.taken(
                u.outpoint,
            ),
        distinct_outpoints(fresh) ==> offers_are_free(state.refreshed(fresh, now)),
{
    let free = |u: UtxoView| !state.taken(u.outpoint);
    let after = state.refreshed(fresh, now);
    assert forall|u: UtxoView|
        after.utxos.contains(u) <==> fresh.contains(u) && !state.taken(u.outpoint) by {
        if after.utxos.contains(u) {
            fresh.lemma_filter_contains_rev(free, u);
            let k = after.utxos.index_of(u);
            assert(free(after.utxos[k]));
        }
        if fresh.contains(u) && free(u) {
            let k = fresh.index_of(u);
            assert(after.utxos.contains(fresh[k]));
        }
    }
    if distinct_outpoints(fresh) {
        filter_keeps_distinct(fresh, free);
        assert forall|i: int| after.idx <= i < after.utxos.len() implies !after.taken(
            (#[trigger] after.utxos[i]).outpoint,
        ) by {
            assert(after.utxos.contains(after.utxos[i]));
        }
    }
}

/// A batch spends only outpoints that were neither reserved nor spent, each once, and reserves
/// them all at once: a fetch before the node has answered does not offer them again.
pub proof fn batch_spends_the_free(state: SendState, n: int, now: u128)
    requires
        state.well_formed(),
        offers_are_free(state),
        0 <= n <= state.utxos.len() - state.idx,
    ensures
        distinct_outpoints(state.next_payable(n)),
        forall|k: int|
            0 <= k < state.next_payable(n).len() ==> {
                let outpoint = (#[trigger] state.next_payable(n)[k]).outpoint;
                &&& !state.taken(outpoint)
                &&& state.after_batch(n, now).pending.contains_key(outpoint)
                &&& state.after_batch(n, now).pending[outpoint] == now
            },
        state.after_batch(n, now).well_formed(),
        offers_are_free(state.after_batch(n, now)),
{
    let taken = state.utxos.subrange(state.idx, state.idx + n);
    let worth = |u: UtxoView| payable(u);
    let due = state.next_payable(n);
    let after = state.after_batch(n, now);
    assert(distinct_outpoints(taken)) by {
        assert forall|i: int, j: int| 0 <= i < j < taken.len() implies (
        #[trigger] taken[i]).outpoint != (#[trigger] taken[j]).outpoint by {
            assert(state.utxos[state.idx + i].outpoint != state.utxos[state.idx + j].outpoint);
        }
    }
    filter_keeps_distinct(taken, worth);
    assert forall|k: int| 0 <= k < due.len() implies exists|i: int|
        state.idx <= i < state.idx + n && #[trigger] state.utxos[i] == #[trigger] due[k] by {
        assert(due.contains(due[k]));
        taken.lemma_filter_contains_rev(worth, due[k]);
        let j = taken.index_of(due[k]);
        assert(state.utxos[state.idx + j] == due[k]);
    }
    let points = due.map_values(|u: UtxoView| u.outpoint);
    assert forall|k: int| 0 <= k < due.len() implies {
        let outpoint = (#[trigger] due[k]).outpoint;
        &&& !state.taken(outpoint)
        &&& after.pending.contains_key(outpoint)
        &&& after.pending[outpoint] == now
    } by {
        assert(points[k] == due[k].outpoint);
        assert(points.contains(due[k].outpoint));
        if n == 0 {
            assert(taken.len() == 0);
            taken.lemma_filter_len(worth);
        }
    }
    if n > 0 {
        vstd::arithmetic::div_mod::lemma_mod_bound(state.next_client + n, state.clients);
        assert forall|i: int| after.idx <= i < after.utxos.len() implies !after.taken(
            (#[trigger] after.utxos[i]).outpoint,
        ) by {
            let outpoint = state.utxos[i].outpoint;
            assert(!state.taken(outpoint));
            if outpoints_of(due).contains(outpoint) {
                assert(points.contains(outpoint));
                let k = points.index_of(outpoint);
                assert(due[k].outpoint == outpoint);
                let j = choose|j: int|
                    state.idx <= j < state.idx + n && #[trigger] state.utxos[j] == due[k];
                assert(state.utxos[j].outpoint != state.utxos[i].outpoint);
            }
        }
    }
}

/// An answer leaves the offers free, as long as an accepted outpoint is still reserved.
pub proof fn answers_keep_offers_free(state: SendState, outpoint: Outpoint, accepted: bool)
    requires
        offers_are_free(state),
        accepted ==> state.pending.contains_key(outpoint),
    ensures
        offers_are_free(state.answered(outpoint, accepted)),
{
    let after = state.answered(outpoint, accepted);
    assert forall|i: int| after.idx <= i < after.utxos.len() implies !after.taken(
        (#[trigger] after.utxos[i]).outpoint,
    ) by {
        assert(!state.taken(state.utxos[i].outpoint));
    }
}

/// What the node refused is offered again by the next fetch that finds it, unless an earlier
/// submission of it was accepted.
pub proof fn refused_is_offered_again(
    state: SendState,
    utxo: UtxoView,
    fresh: Seq<UtxoView>,
    now: u128,
)
    requires
        !state.spent.contains(utxo.outpoint),
        fresh.contains(utxo),
    ensures
        state.answered(utxo.outpoint, false).refreshed(fresh, now).utxos.contains(utxo),
{
    refresh_offers_the_free(state.answered(utxo.outpoint, false), fresh, now);
}

/// A reservation lasts until it is answered with a refusal or has become too old.
pub proof fn reservations_last(state: SendState, n: int, now: u128, outpoint: Outpoint)
    requires
        state.pending.contains_key(outpoint),
        age(now, state.pending[outpoint]) <= MAX_PENDING_AGE_NANOS,
    ensures
        state.after_batch(n, now).pending.contains_key(outpoint),
{
}

/// A batch drops every reservation that has become too old.
pub proof fn old_reservations_are_dropped(
    state: SendState,
    n: int,
    now: u128,
    outpoint: Outpoint,
)
    requires
        n > 0,
        state.after_batch(n, now).pending.contains_key(outpoint),
    ensures
        age(now, state.after_batch(n, now).pending[outpoint]) <= MAX_PENDING_AGE_NANOS,
{
}

/// A batch never puts more under way than is allowed, nor takes more than was due or is left.
pub proof fn batches_respect_the_limits(state: SendState, intended: int, inflight: int)
    requires
        state.well_formed(),
        0 <= intended,
        0 <= inflight,
    ensures
        0 <= state.batch_size(intended, inflight) <= intended,
        state.batch_size(intended, inflight) <= state.utxos.len() - state.idx,
        inflight <= MAX_INFLIGHT ==> inflight + state.next_payable(
            state.batch_size(intended, inflight),
        ).len() <= MAX_INFLIGHT,
        state.ready(inflight) && intended > 0 ==> state.batch_size(intended, inflight) > 0,
{
    let n = state.batch_size(intended, inflight);
    state.utxos.subrange(state.idx, state.idx + n).lemma_filter_len(|u: UtxoView| payable(u));
}

/// Once the time is up it stays so, and without a duration it never is.
pub proof fn time_runs_out_once(state: SendState, now: u128, later: u128)
    requires
        now <= later,
    ensures
        state.decision(now) == TickDecision::Finish ==> state.decision(later)
            == TickDecision::Finish,
        state.duration_seconds == 0 ==> state.decision(now) != TickDecision::Finish,
{
    vstd::arithmetic::div_mod::lemma_div_is_ordered(
        age(now, state.start),
        age(later, state.start),
        NANOS_PER_SEC as int,
    );
}

/// Two submissions of a batch that are closer than there are connections go out on different
/// ones.
pub proof fn connections_take_turns(
    submissions: Seq<Submission>,
    utxos: Seq<UtxoView>,
    key: Seq<u8>,
    address: AddressView,
    first: int,
    clients: int,
    i: int,
    j: int,
)
    requires
        0 <= first < clients,
        are_submissions(submissions, utxos, key, address, first, clients),
        0 <= i < j < submissions.len(),
        j - i < clients,
    ensures
        submissions[i].client != submissions[j].client,
        submissions[i].client < clients,
{
    let a = first + i;
    let b = first + j;
    assert(submissions[i].client == a % clients);
    assert(submissions[j].client == b % clients);
    assert(a % clients < clients) by (nonlinear_arith)
        requires
            clients > 0,
    ;
    if a % clients == b % clients {
        vstd::arithmetic::div_mod::lemma_fundamental_div_mod(a, clients);
        vstd::arithmetic::div_mod::lemma_fundamental_div_mod(b, clients);
        let d = b / clients - a / clients;
        assert(b - a == clients * d) by (nonlinear_arith)
            requires
                a == clients * (a / clients) + a % clients,
                b == clients * (b / clients) + b % clients,
                a % clients == b % clients,
                d == b / clients - a / clients,
        ;
        assert(false) by (nonlinear_arith)
            requires
                b - a == clients * d,
                0 < b - a < clients,
        ;
    }
}

/// From batch to batch, too, the connections follow one another: where every output taken is worth
/// a payment, each payment goes out on the connection behind that of the one before.
pub proof fn batches_take_turns(
    state: SendState,
    n: int,
    now: u128,
    sent: int,
    submissions: Seq<Submission>,
    key: Seq<u8>,
    address: AddressView,
)
    requires
        state.well_formed(),
        0 <= n <= state.utxos.len() - state.idx,
        forall|i: int|
            state.idx <= i < state.idx + n ==> payable(#[trigger] state.utxos[i]),
        0 <= sent,
        state.next_client == sent % state.clients,
        are_submissions(
            submissions,
            state.next_payable(n),
            key,
            address,
            state.next_client,
            state.clients,
        ),
    ensures
        submissions.len() == n,
        forall|k: int|
            0 <= k < n ==> (#[trigger] submissions[k]).client == (sent + k) % state.clients,
        state.after_batch(n, now).next_client == (sent + n) % state.clients,
{
    let taken = state.utxos.subrange(state.idx, state.idx + n);
    all_pass(taken, |u: UtxoView| payable(u));
    assert forall|k: int| 0 <= k < n implies (#[trigger] submissions[k]).client == (sent + k)
        % state.clients by {
        vstd::arithmetic::div_mod::lemma_add_mod_noop_right(k, sent, state.clients);
    }
    vstd::arithmetic::div_mod::lemma_add_mod_noop_right(n, sent, state.clients);
}

/// Filtering keeps a list in which every element passes.
proof fn all_pass<T>(list: Seq<T>, pred: spec_fn(T) -> bool)
    requires
        forall|i: int| 0 <= i < list.len() ==> pred(#[trigger] list[i]),
    ensures
        list.filter(pred) == list,
    decreases list.len(),
{
    reveal(Seq::filter);
    if list.len() > 0 {
        assert forall|i: int| 0 <= i < list.drop_last().len() implies pred(
            #[trigger] list.drop_last()[i],
        ) by {
            assert(list.drop_last()[i] == list[i]);
        }
        all_pass(list.drop_last(), pred);
        assert(list.drop_last().push(list.last()) =~= list);
    } else {
        assert(list =~= Seq::empty());
    }
}

/// A payment loses the fee and nothing else, and leaves no dust.
pub proof fn payments_lose_only_the_fee(
    tx: TransactionView,
    utxo: UtxoView,
    key: Seq<u8>,
    address: AddressView,
)
    requires
        payable(utxo),
        is_payment(tx, utxo, key, address),
    ensures
        tx.inputs.len() == 1,
        tx.inputs[0].previous_outpoint == utxo.outpoint,
        tx.outputs.len() == 1,
        tx.outputs[0].value + payment_fee() == utxo.entry.amount,
        tx.outputs[0].value >= MIN_CHANGE_SOMPI,
        tx.outputs[0].script_public_key == script_of(address),
{
    let unsigned = unsigned_transaction(
        utxo.outpoint,
        spam_outputs(script_of(address), (utxo.entry.amount - payment_fee()) as u64),
    );
    assert(tx.unsigned().inputs[0].previous_outpoint == tx.inputs[0].previous_outpoint);
    assert(tx.outputs == unsigned.outputs);
}

/// Something that happens to the send phase.
pub enum Event {
    /// The outputs were fetched again.
    Fetched { fresh: Seq<UtxoView>, now: u128 },
    /// A batch was sent.
    Sent { intended: int, inflight: int, now: u128 },
    /// The node answered a submission.
    Answered { outpoint: Outpoint, accepted: bool },
    /// The figures were reported.
    Reported { now: u128 },
}

/// The state once the event has happened.
pub open spec fn step(state: SendState, event: Event) -> SendState {
    match event {
        Event::Fetched { fresh, now } => state.refreshed(fresh, now),
        Event::Sent { intended, inflight, now } => state.after_batch(
            state.batch_size(intended, inflight),
            now,
        ),
        Event::Answered { outpoint, accepted } => state.answered(outpoint, accepted),
        Event::Reported { now } => state.reported(now),
    }
}

/// The state once all events have happened.
pub open spec fn run(state: SendState, events: Seq<Event>) -> SendState
    decreases events.len(),
{
    if events.len() == 0 {
        state
    } else {
        step(run(state, events.drop_last()), events.last())
    }
}

/// Whether an event is an ordinary one: the node reports no outpoint twice, counts are not
/// negative, and an outpoint is accepted while it is reserved.
pub open spec fn ordinary(state: SendState, event: Event) -> bool {
    match event {
        Event::Fetched { fresh, now } => distinct_outpoints(fresh),
        Event::Sent { intended, inflight, now } => 0 <= intended && 0 <= inflight,
        Event::Answered { outpoint, accepted } => accepted ==> state.pending.contains_key(
            outpoint,
        ),
        Event::Reported { now } => true,
    }
}

/// What has been accepted stays so, whatever happens.
pub proof fn accepted_stays_accepted(state: SendState, events: Seq<Event>)
    ensures
        state.spent.subset_of(run(state, events).spent),
    decreases events.len(),
{
    if events.len() > 0 {
        accepted_stays_accepted(state, events.drop_last());
    }
}

/// An ordinary event leaves the offers free.
proof fn step_keeps_offers_free(state: SendState, event: Event)
    requires
        state.well_formed(),
        offers_are_free(state),
        ordinary(state, event),
    ensures
        step(state, event).well_formed(),
        offers_are_free(step(state, event)),
{
    match event {
        Event::Fetched { fresh, now } => {
            refresh_offers_the_free(state, fresh, now);
        },
        Event::Sent { intended, inflight, now } => {
            batches_respect_the_limits(state, intended, inflight);
            batch_spends_the_free(state, state.batch_size(intended, inflight), now);
        },
        Event::Answered { outpoint, accepted } => {
            answers_keep_offers_free(state, outpoint, accepted);
        },
        Event::Reported { now } => {
            assert forall|i: int| state.idx <= i < state.utxos.len() implies !state.reported(
                now,
            ).taken((#[trigger] state.utxos[i]).outpoint) by {
                assert(!state.taken(state.utxos[i].outpoint));
            }
        },
    }
}

/// Over any run of ordinary events, no outpoint is offered that is reserved or spent. With
/// [`batch_spends_the_free`], no batch spends one.
pub proof fn runs_never_offer_the_taken(state: SendState, events: Seq<Event>)
    requires
        state.well_formed(),
        offers_are_free(state),
        forall|k: int|
            0 <= k < events.len() ==> ordinary(
                run(state, #[trigger] events.take(k)),
                events[k],
            ),
    ensures
        run(state, events).well_formed(),
        offers_are_free(run(state, events)),
    decreases events.len(),
{
    if events.len() > 0 {
        let earlier = events.drop_last();
        assert forall|k: int| 0 <= k < earlier.len() implies ordinary(
            run(state, #[trigger] earlier.take(k)),
            earlier[k],
        ) by {
            assert(earlier.take(k) =~= events.take(k));
        }
        runs_never_offer_the_taken(state, earlier);
        let before = run(state, earlier);
        assert(events.take(events.len() - 1) =~= earlier);
        step_keeps_offers_free(before, events.last());
    }
}

/// The outpoints of the submissions of a run that the node has not answered yet.
pub open spec fn unanswered(state: SendState, events: Seq<Event>) -> Set<Outpoint>
    decreases events.len(),
{
    if events.len() == 0 {
        Set::empty()
    } else {
        let before = run(state, events.drop_last());
        let waiting = unanswered(state, events.drop_last());
        match events.last() {
            Event::Sent { intended, inflight, now } => waiting.union(
                outpoints_of(before.next_payable(before.batch_size(intended, inflight))),
            ),
            Event::Answered { outpoint, accepted } => waiting.remove(outpoint),
            _ => waiting,
        }
    }
}

/// Whether an event that follows a run is an ordinary and timely one: the node reports no outpoint
/// twice and accepts only what it has not answered yet, counts are not negative, and when a batch
/// is sent no submission has been waiting for longer than a reservation lasts.
pub open spec fn timely(state: SendState, events: Seq<Event>, event: Event) -> bool {
    match event {
        Event::Fetched { fresh, now } => distinct_outpoints(fresh),
        Event::Sent { intended, inflight, now } => {
            &&& 0 <= intended
            &&& 0 <= inflight
            &&& forall|o: Outpoint| #[trigger]
                unanswered(state, events).contains(o) ==> age(
                    now,
                    run(state, events).pending[o],
                ) <= MAX_PENDING_AGE_NANOS
        },
        Event::Answered { outpoint, accepted } => accepted ==> unanswered(
            state,
            events,
        ).contains(outpoint),
        Event::Reported { now } => true,
    }
}

/// Over any run of timely events, what is unanswered stays reserved, and no batch spends what is
/// unanswered or accepted.
pub proof fn unanswered_are_left_alone(state: SendState, events: Seq<Event>)
    requires
        state.well_formed(),
        offers_are_free(state),
        forall|k: int|
            0 <= k < events.len() ==> timely(state, #[trigger] events.take(k), events[k]),
    ensures
        offers_are_free(run(state, events)),
        forall|o: Outpoint| #[trigger]
            unanswered(state, events).contains(o) ==> run(state, events).pending.contains_key(o),
        forall|n: int, k: int|
            0 <= n <= run(state, events).utxos.len() - run(state, events).idx && 0 <= k < run(
                state,
                events,
            ).next_payable(n).len() ==> {
                let outpoint = (#[trigger] run(state, events).next_payable(n)[k]).outpoint;
                &&& !unanswered(state, events).contains(outpoint)
                &&& !run(state, events).spent.contains(outpoint)
            },
{
    unanswered_stay_reserved(state, events);
    let after = run(state, events);
    assert forall|n: int, k: int|
        0 <= n <= after.utxos.len() - after.idx && 0 <= k < after.next_payable(
            n,
        ).len() implies {
        let outpoint = (#[trigger] after.next_payable(n)[k]).outpoint;
        &&& !unanswered(state, events).contains(outpoint)
        &&& !after.spent.contains(outpoint)
    } by {
        batch_spends_the_free(after, n, 0);
        assert(!after.taken(after.next_payable(n)[k].outpoint));
    }
}

/// Over any run of timely events, what is unanswered stays reserved, and the offers stay free.
proof fn unanswered_stay_reserved(state: SendState, events: Seq<Event>)
    requires
        state.well_formed(),
        offers_are_free(state),
        forall|k: int|
            0 <= k < events.len() ==> timely(state, #[trigger] events.take(k), events[k]),
    ensures
        run(state, events).well_formed(),
        offers_are_free(run(state, events)),
        forall|o: Outpoint| #[trigger]
            unanswered(state, events).contains(o) ==> run(state, events).pending.contains_key(o),
    decreases events.len(),
{
    if events.len() > 0 {
        let earlier = events.drop_last();
        assert forall|k: int| 0 <= k < earlier.len() implies timely(
            state,
            #[trigger] earlier.take(k),
            earlier[k],
        ) by {
            assert(earlier.take(k) =~= events.take(k));
        }
        unanswered_stay_reserved(state, earlier);
        let before = run(state, earlier);
        assert(events.take(events.len() - 1) =~= earlier);
        step_keeps_offers_free(before, events.last());
        assert forall|o: Outpoint| #[trigger] unanswered(state, events).contains(o) implies run(
            state,
            events,
        ).pending.contains_key(o) by {
            if let Event::Sent { intended, inflight, now } = events.last() {
                batches_respect_the_limits(before, intended, inflight);
                let n = before.batch_size(intended, inflight);
                batch_spends_the_free(before, n, now);
                if unanswered(state, earlier).contains(o) {
                    reservations_last(before, n, now, o);
                } else {
                    let points = before.next_payable(n).map_values(|u: UtxoView| u.outpoint);
                    assert(points.contains(o));
                    assert(before.next_payable(n)[points.index_of(o)].outpoint == o);
                }
            } else {
                assert(unanswered(state, earlier).contains(o));
            }
        }
    }
}

/// An output is worth a payment exactly when it covers the fee of 1_700 sompi and the least output
/// of 1_000_000 sompi, however large it is.
pub proof fn payable_covers_fee_and_least_output(utxo: UtxoView)
    ensures
        payable(utxo) <==> utxo.entry.amount >= 1_001_700,
        payment_fee() == 1_700,
{
}

/// An output that is at least as large as one that is worth a payment is worth one too.
pub proof fn payable_goes_by_amount(a: UtxoView, b: UtxoView)
    requires
        a.entry.amount <= b.entry.amount,
        payable(a),
    ensures
        payable(b),
{
}

/// Every output that splitting makes is worth a payment.
pub proof fn split_outputs_are_payable(utxo: UtxoView)
    requires
        utxo.entry.amount == AMOUNT_PER_UTXO,
    ensures
        payable(utxo),
{
}

/// One more output adds a payment behind the others, where it is worth one, and nothing else.
pub proof fn outputs_are_paid_one_by_one(utxos: Seq<UtxoView>, utxo: UtxoView)
    ensures
        payable_part(Seq::empty()).len() == 0,
        payable_part(utxos.push(utxo)) == (if utxo.entry.amount >= 1_001_700 {
            payable_part(utxos).push(utxo)
        } else {
            payable_part(utxos)
        }),
{
    reveal(Seq::filter);
    assert(utxos.push(utxo).drop_last() =~= utxos);
}

/// A batch that takes one more output pays it behind the others, where it is worth a payment.
pub proof fn batches_pay_output_by_output(state: SendState, n: int)
    requires
        state.well_formed(),
        0 <= n < state.utxos.len() - state.idx,
    ensures
        state.next_payable(0).len() == 0,
        state.next_payable(n + 1) == (if state.utxos[state.idx + n].entry.amount >= 1_001_700 {
            state.next_payable(n).push(state.utxos[state.idx + n])
        } else {
            state.next_payable(n)
        }),
{
    let taken = state.utxos.subrange(state.idx, state.idx + n);
    let utxo = state.utxos[state.idx + n];
    outputs_are_paid_one_by_one(taken, utxo);
    assert(state.utxos.subrange(state.idx, state.idx + n + 1) =~= taken.push(utxo));
    assert(state.utxos.subrange(state.idx, state.idx) =~= Seq::empty());
}

/// A payment spends the output and nothing else, pays all of it but 1_700 sompi to the address, and
/// its signature holds.
pub proof fn payment_in_full(
    tx: TransactionView,
    utxo: UtxoView,
    key: Seq<u8>,
    address: AddressView,
)
    requires
        utxo.entry.amount >= 1_001_700,
        is_payment(tx, utxo, key, address),
    ensures
        tx.inputs.len() == 1,
        tx.inputs[0].previous_outpoint == utxo.outpoint,
        tx.outputs.len() == 1,
        tx.outputs[0].value == utxo.entry.amount - 1_700,
        tx.outputs[0].script_public_key == script_of(address),
        signature_verifies(tx, utxo.entry, x_only_public_key_of(key)),
{
    signed_transaction_in_full(
        tx,
        utxo.outpoint,
        spam_outputs(script_of(address), (utxo.entry.amount - payment_fee()) as u64),
        utxo.entry,
        key,
    );
}

/// The submissions of a batch are payments, one for each output and in their order, each on the
/// connection behind that of the one before.
pub proof fn submissions_in_full(
    submissions: Seq<Submission>,
    utxos: Seq<UtxoView>,
    key: Seq<u8>,
    address: AddressView,
    first: int,
    clients: int,
    k: int,
)
    requires
        are_submissions(submissions, utxos, key, address, first, clients),
        0 <= k < utxos.len(),
        utxos[k].entry.amount >= 1_001_700,
    ensures
        submissions.len() == utxos.len(),
        submissions[k].outpoint == utxos[k].outpoint,
        submissions[k].client == (first + k) % clients,
        submissions[k].transaction@.inputs.len() == 1,
        submissions[k].transaction@.inputs[0].previous_outpoint == utxos[k].outpoint,
        submissions[k].transaction@.outputs.len() == 1,
        submissions[k].transaction@.outputs[0].value == utxos[k].entry.amount - 1_700,
        submissions[k].transaction@.outputs[0].script_public_key == script_of(address),
        signature_verifies(
            submissions[k].transaction@,
            utxos[k].entry,
            x_only_public_key_of(key),
        ),
{
    payment_in_full(submissions[k].transaction@, utxos[k], key, address);
}

/// A tick ends the phase exactly when the duration has passed since the start, to the nanosecond;
/// a phase without a duration is never ended.
pub proof fn sending_ends_with_its_duration(state: SendState, now: u128)
    ensures
        state.decision(now) == TickDecision::Finish <==> state.duration_seconds > 0 && now
            - state.start >= state.duration_seconds * 1_000_000_000,
{
}

/// While sending goes on, the outputs are fetched exactly when a second has passed since the last
/// time, or no more than eight are left.
pub proof fn outputs_are_fetched_in_time(state: SendState, now: u128)
    requires
        state.duration_seconds == 0 || now - state.start < state.duration_seconds * 1_000_000_000,
    ensures
        state.decision(now) == TickDecision::Refresh <==> now - state.last_refresh >= 1_000_000_000
            || state.utxos.len() - state.idx <= 8,
        state.decision(now) == TickDecision::Refresh || state.decision(now)
            == TickDecision::Proceed,
{
}

/// Seconds are counted whole: as many as fit in the time that has passed.
pub proof fn seconds_are_whole(now: u128, since: u128)
    ensures
        since <= now ==> elapsed_secs(now, since) * 1_000_000_000 <= now - since,
        now - since < (elapsed_secs(now, since) + 1) * 1_000_000_000,
        now <= since ==> elapsed_secs(now, since) == 0,
{
}

/// Something may be sent exactly while outputs are left and fewer than 20_000 submissions are under
/// way.
pub proof fn sending_waits_for_outputs_and_room(state: SendState, inflight: int)
    ensures
        state.ready(inflight) <==> state.idx < state.utxos.len() && inflight < 20_000,
{
}

/// A batch takes as many outputs as it may: all that are due, or all that are left, or all that
/// there is room for.
pub proof fn batches_take_what_they_may(state: SendState, intended: int, inflight: int)
    requires
        state.well_formed(),
        0 <= intended,
        0 <= inflight,
    ensures
        ({
            let n = state.batch_size(intended, inflight);
            &&& 0 <= n <= intended
            &&& n <= state.utxos.len() - state.idx
            &&& inflight <= 20_000 ==> inflight + n <= 20_000
            &&& inflight <= 20_000 ==> n == intended || n == state.utxos.len() - state.idx
                || inflight + n == 20_000
            &&& inflight > 20_000 ==> n == 0
        }),
{
}

/// A fetch begins a new list: it is read output by output, each is kept behind the others unless
/// it is reserved or spent, and nothing else changes.
pub proof fn fetches_are_read_output_by_output(
    state: SendState,
    fresh: Seq<UtxoView>,
    utxo: UtxoView,
    now: u128,
)
    ensures
        state.refreshed(Seq::empty(), now).utxos.len() == 0,
        state.refreshed(fresh.push(utxo), now).utxos == (if state.pending.contains_key(
            utxo.outpoint,
        ) || state.spent.contains(utxo.outpoint) {
            state.refreshed(fresh, now).utxos
        } else {
            state.refreshed(fresh, now).utxos.push(utxo)
        }),
        ({
            let after = state.refreshed(fresh, now);
            &&& after.idx == 0
            &&& after.last_refresh == now
            &&& after.pending == state.pending
            &&& after.spent == state.spent
            &&& after.clients == state.clients
            &&& after.next_client == state.next_client
            &&& after.start == state.start
            &&& after.duration_seconds == state.duration_seconds
            &&& after.stats_start == state.stats_start
            &&& after.sent == state.sent
        }),
{
    reveal(Seq::filter);
    assert(fresh.push(utxo).drop_last() =~= fresh);
}

/// Behind a batch exactly those outpoints are reserved that it pays, from now on, and those that
/// were reserved within the last hour, as they were; the list goes on behind the outputs taken, and
/// the connections as many places on. Nothing else changes.
pub proof fn batch_in_full(state: SendState, n: int, now: u128, outpoint: Outpoint)
    requires
        state.well_formed(),
        0 < n <= state.utxos.len() - state.idx,
    ensures
        ({
            let after = state.after_batch(n, now);
            let paid = exists|i: int|
                state.idx <= i < state.idx + n && (#[trigger] state.utxos[i]).outpoint == outpoint
                    && state.utxos[i].entry.amount >= 1_001_700;
            let kept = state.pending.contains_key(outpoint) && now - state.pending[outpoint]
                <= 3_600_000_000_000;
            &&& after.pending.contains_key(outpoint) <==> paid || kept
            &&& paid ==> after.pending[outpoint] == now
            &&& kept && !paid ==> after.pending[outpoint] == state.pending[outpoint]
            &&& after.idx == state.idx + n
            &&& after.next_client == (state.next_client + n) % state.clients
            &&& after.utxos == state.utxos
            &&& after.spent == state.spent
            &&& after.last_refresh == state.last_refresh
            &&& after.clients == state.clients
            &&& after.start == state.start
            &&& after.duration_seconds == state.duration_seconds
            &&& after.stats_start == state.stats_start
            &&& after.sent == state.sent
        }),
{
    let taken = state.utxos.subrange(state.idx, state.idx + n);
    let worth = |u: UtxoView| payable(u);
    let due = state.next_payable(n);
    let points = due.map_values(|u: UtxoView| u.outpoint);
    let paid = exists|i: int|
        state.idx <= i < state.idx + n && (#[trigger] state.utxos[i]).outpoint == outpoint
            && state.utxos[i].entry.amount >= 1_001_700;
    if paid {
        let i = choose|i: int|
            state.idx <= i < state.idx + n && (#[trigger] state.utxos[i]).outpoint == outpoint
                && state.utxos[i].entry.amount >= 1_001_700;
        assert(taken[i - state.idx] == state.utxos[i]);
        assert(worth(taken[i - state.idx]));
        assert(due.contains(state.utxos[i]));
        let k = due.index_of(state.utxos[i]);
        assert(points[k] == outpoint);
        assert(points.contains(outpoint));
    }
    if points.contains(outpoint) {
        let k = points.index_of(outpoint);
        assert(due[k].outpoint == outpoint);
        assert(due.contains(due[k]));
        taken.lemma_filter_contains_rev(worth, due[k]);
        assert(worth(due[k]));
        let j = taken.index_of(due[k]);
        assert(state.utxos[state.idx + j] == due[k]);
        assert(paid);
    }
}

/// A batch that takes nothing changes nothing.
pub proof fn empty_batch_changes_nothing(state: SendState, now: u128)
    ensures
        state.after_batch(0, now) == state,
{
}

/// An answer is about one outpoint: acceptance marks it as spent and counts it, refusal frees it,
/// and nothing else changes.
pub proof fn answer_in_full(state: SendState, outpoint: Outpoint, accepted: bool, other: Outpoint)
    requires
        accepted ==> state.sent < u64::MAX,
    ensures
        ({
            let after = state.answered(outpoint, accepted);
            &&& after.spent.contains(other) <==> state.spent.contains(other) || (accepted && other
                == outpoint)
            &&& after.pending.contains_key(other) <==> state.pending.contains_key(other) && (
            accepted || other != outpoint)
            &&& after.pending.contains_key(other) ==> after.pending[other] == state.pending[other]
            &&& after.sent == state.sent + if accepted {
                1int
            } else {
                0
            }
            &&& after.utxos == state.utxos
            &&& after.idx == state.idx
            &&& after.last_refresh == state.last_refresh
            &&& after.clients == state.clients
            &&& after.next_client == state.next_client
            &&& after.start == state.start
            &&& after.duration_seconds == state.duration_seconds
            &&& after.stats_start == state.stats_start
        }),
{
}

/// A report begins a new count, and changes nothing else.
pub proof fn report_in_full(state: SendState, now: u128)
    ensures
        ({
            let after = state.reported(now);
            &&& after.stats_start == now
            &&& after.sent == 0
            &&& after.pending == state.pending
            &&& after.spent == state.spent
            &&& after.utxos == state.utxos
            &&& after.idx == state.idx
            &&& after.last_refresh == state.last_refresh
            &&& after.clients == state.clients
            &&& after.next_client == state.next_client
            &&& after.start == state.start
            &&& after.duration_seconds == state.duration_seconds
        }),
{
}

/// The rate is never more than requested, nor more than 100 under the cap; within these limits it
/// is as requested.
pub proof fn rate_is_capped(target_tps: u64, unleashed: bool)
    ensures
        rate(target_tps, unleashed) <= target_tps,
        rate(target_tps, true) == target_tps,
        rate(target_tps, false) <= 100,
        rate(target_tps, false) == target_tps || (rate(target_tps, false) == 100 && target_tps
            > 100),
{
}

} // verus!
