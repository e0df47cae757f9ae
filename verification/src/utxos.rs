//! Which outputs the generator may spend.
use vstd::prelude::*;

use crate::config::MIN_CONFIRMATIONS;
use crate::ordering::{
    largest_first, largest_first_filters, largest_first_keeps_outputs, sort_by_amount,
};
use crate::tx::{utxo_views, Address, AddressView, Utxo, UtxoEntry, UtxoEntryView, UtxoView};

verus! {

/// The confirmations that an output needs before it is spent.
pub open spec fn needed_confirmations(is_coinbase: bool, coinbase_maturity: u64) -> u64 {
    if is_coinbase {
        coinbase_maturity
    } else {
        MIN_CONFIRMATIONS
    }
}

/// Whether an output has the confirmations that it needs at the given score of the chain.
pub open spec fn spendable(
    entry: UtxoEntryView,
    virtual_daa_score: u64,
    coinbase_maturity: u64,
) -> bool {
    entry.block_daa_score + needed_confirmations(entry.is_coinbase, coinbase_maturity)
        <= virtual_daa_score
}

/// Tells whether an output has the confirmations that it needs.
pub fn is_utxo_spendable(
    entry: &UtxoEntry,
    virtual_daa_score: u64,
    coinbase_maturity: u64,
) -> (yes: bool)
    ensures
        yes == spendable(entry@, virtual_daa_score, coinbase_maturity),
        yes <==> virtual_daa_score - entry.block_daa_score >= (if entry.is_coinbase {
            coinbase_maturity as int
        } else {
            10
        }),
{
    let needed: u64 = if entry.is_coinbase {
        coinbase_maturity
    } else {
        MIN_CONFIRMATIONS
    };
    entry.block_daa_score <= virtual_daa_score && needed <= virtual_daa_score
        - entry.block_daa_score
}

/// The model of [`ReportedUtxo`].
#[verifier::ext_equal]
pub struct ReportedUtxoView {
    pub address: Option<AddressView>,
    pub utxo: UtxoView,
}

/// An output as the node reports it, with the address that it pays.
#[derive(Debug, PartialEq, Eq)]
pub struct ReportedUtxo {
    pub address: Option<Address>,
    pub utxo: Utxo,
}

impl View for ReportedUtxo {
    type V = ReportedUtxoView;

    open spec fn view(&self) -> ReportedUtxoView {
        ReportedUtxoView {
            address: match self.address {
                Some(address) => Some(address@),
                None => None,
            },
            utxo: self.utxo@,
        }
    }
}

/// The models of a report.
pub open spec fn report_views(report: Seq<ReportedUtxo>) -> Seq<ReportedUtxoView> {
    report.map_values(|r: ReportedUtxo| r@)
}

/// The outputs of a report that can be spent, in the order of the report.
pub open spec fn spendable_part(
    report: Seq<ReportedUtxoView>,
    virtual_daa_score: u64,
    coinbase_maturity: u64,
) -> Seq<UtxoView> {
    report.filter(
        |r: ReportedUtxoView| spendable(r.utxo.entry, virtual_daa_score, coinbase_maturity),
    ).map_values(|r: ReportedUtxoView| r.utxo)
}

/// Whether every output of a report that can be spent is said to pay the address.
pub open spec fn all_pay(
    report: Seq<ReportedUtxoView>,
    address: AddressView,
    virtual_daa_score: u64,
    coinbase_maturity: u64,
) -> bool {
    forall|i: int|
        0 <= i < report.len() && spendable(
            (#[trigger] report[i]).utxo.entry,
            virtual_daa_score,
            coinbase_maturity,
        ) ==> report[i].address == Some(address)
}

/// Tells whether the address is the given one.
fn same_address(a: &Address, b: &Address) -> (same: bool)
    ensures
        same == (a@ == b@),
{
    let same = a.prefix == b.prefix && a.version == b.version && a.payload == b.payload;
    proof {
        if same {
            assert(a.payload@ =~= b.payload@);
        }
    }
    same
}

/// Tells whether every output of a report that can be spent is said to pay the address.
pub fn report_pays_only(
    report: &Vec<ReportedUtxo>,
    address: &Address,
    virtual_daa_score: u64,
    coinbase_maturity: u64,
) -> (yes: bool)
    ensures
        yes == all_pay(
            report_views(report@),
            address@,
            virtual_daa_score,
            coinbase_maturity,
        ),
{
    let ghost views = report_views(report@);
    let mut i: usize = 0;
    while i < report.len()
        invariant
            0 <= i <= report.len(),
            views == report_views(report@),
            forall|j: int|
                0 <= j < i && spendable(
                    (#[trigger] views[j]).utxo.entry,
                    virtual_daa_score,
                    coinbase_maturity,
                ) ==> views[j].address == Some(address@),
        decreases report.len() - i,
    {
        assert(views[i as int] == report[i as int]@);
        if is_utxo_spendable(&report[i].utxo.entry, virtual_daa_score, coinbase_maturity) {
            match &report[i].address {
                Some(found) => {
                    if !same_address(found, address) {
                        return false;
                    }
                },
                None => {
                    return false;
                },
            }
        }
        i += 1;
    }
    true
}

/// Picks the outputs of the node's report that can be spent, and orders them, the largest first.
#[allow(unused_variables)]
pub fn spendable_utxos(
    report: &Vec<ReportedUtxo>,
    address: &Address,
    virtual_daa_score: u64,
    coinbase_maturity: u64,
) -> (utxos: Vec<Utxo>)
    requires
        all_pay(report_views(report@), address@, virtual_daa_score, coinbase_maturity),
    ensures
        utxo_views(utxos@) == largest_first(
            spendable_part(report_views(report@), virtual_daa_score, coinbase_maturity),
        ),
{
    let ghost views = report_views(report@);
    let ghost pred = |r: ReportedUtxoView|
        spendable(r.utxo.entry, virtual_daa_score, coinbase_maturity);
    let ghost pick = |r: ReportedUtxoView| r.utxo;
    let mut kept: Vec<Utxo> = Vec::new();
    let mut i: usize = 0;
    assert(views.take(0).filter(pred) =~= Seq::empty()) by {
        reveal(Seq::filter);
    }
    while i < report.len()
        invariant
            0 <= i <= report.len(),
            views == report_views(report@),
            pred == (|r: ReportedUtxoView|
                spendable(r.utxo.entry, virtual_daa_score, coinbase_maturity)),
            pick == (|r: ReportedUtxoView| r.utxo),
            utxo_views(kept@) =~= views.take(i as int).filter(pred).map_values(pick),
        decreases report.len() - i,
    {
        let ghost so_far = kept@;
        proof {
            reveal(Seq::filter);
            assert(views[i as int] == report[i as int]@);
            assert(views.take(i + 1).drop_last() =~= views.take(i as int));
            assert(views.take(i + 1).last() == views[i as int]);
        }
        if is_utxo_spendable(&report[i].utxo.entry, virtual_daa_score, coinbase_maturity) {
            kept.push(report[i].utxo.clone());
            proof {
                assert(utxo_views(kept@) =~= utxo_views(so_far).push(views[i as int].utxo));
            }
        }
        i += 1;
    }
    assert(views.take(report.len() as int) =~= views);
    sort_by_amount(&kept)
}

/// The sum of the amounts.
pub open spec fn total(utxos: Seq<UtxoView>) -> nat
    decreases utxos.len(),
{
    if utxos.len() == 0 {
        0
    } else {
        total(utxos.drop_last()) + utxos.last().entry.amount as nat
    }
}

/// The sum of the first outputs is no more than that of all.
proof fn total_grows(utxos: Seq<UtxoView>, k: int)
    requires
        0 <= k <= utxos.len(),
    ensures
        total(utxos.take(k)) <= total(utxos),
    decreases utxos.len(),
{
    if k < utxos.len() {
        total_grows(utxos.drop_last(), k);
        assert(utxos.drop_last().take(k) =~= utxos.take(k));
    } else {
        assert(utxos.take(k) =~= utxos);
    }
}

/// Adds up the amounts.
pub fn total_balance(utxos: &Vec<Utxo>) -> (balance: u64)
    requires
        total(utxo_views(utxos@)) <= u64::MAX,
    ensures
        balance == total(utxo_views(utxos@)),
{
    let ghost views = utxo_views(utxos@);
    let mut balance: u64 = 0;
    let mut i: usize = 0;
    while i < utxos.len()
        invariant
            0 <= i <= utxos.len(),
            views == utxo_views(utxos@),
            total(views) <= u64::MAX,
            balance == total(views.take(i as int)),
        decreases utxos.len() - i,
    {
        proof {
            assert(views.take(i + 1).drop_last() =~= views.take(i as int));
            assert(views.take(i + 1).last() == utxos[i as int]@);
            total_grows(views, i + 1);
        }
        balance = balance + utxos[i].entry.amount;
        i += 1;
    }
    assert(views.take(utxos.len() as int) =~= views);
    balance
}

/// Whether the output at `k` is the largest, and the last one of that amount.
pub open spec fn is_last_largest(utxos: Seq<UtxoView>, k: int) -> bool {
    &&& 0 <= k < utxos.len()
    &&& forall|i: int|
        0 <= i < utxos.len() ==> (#[trigger] utxos[i]).entry.amount <= utxos[k].entry.amount
    &&& forall|i: int|
        k < i < utxos.len() ==> (#[trigger] utxos[i]).entry.amount < utxos[k].entry.amount
}

/// The place of the largest output, the last one where several are equally large.
pub open spec fn last_largest(utxos: Seq<UtxoView>) -> int
    decreases utxos.len(),
{
    if utxos.len() <= 1 {
        0
    } else {
        let k = last_largest(utxos.drop_last());
        if utxos.last().entry.amount >= utxos[k].entry.amount {
            utxos.len() - 1
        } else {
            k
        }
    }
}

/// Finds the largest output, the last one where several are equally large.
pub fn largest_utxo(utxos: &Vec<Utxo>) -> (k: usize)
    requires
        utxos.len() > 0,
    ensures
        k == last_largest(utxo_views(utxos@)),
        is_last_largest(utxo_views(utxos@), k as int),
        k < utxos.len(),
        forall|i: int|
            0 <= i < utxos.len() ==> (#[trigger] utxos[i]).entry.amount
                <= utxos[k as int].entry.amount,
        forall|i: int|
            k < i < utxos.len() ==> (#[trigger] utxos[i]).entry.amount
                < utxos[k as int].entry.amount,
{
    let ghost views = utxo_views(utxos@);
    let mut k: usize = 0;
    let mut i: usize = 1;
    while i < utxos.len()
        invariant
            views == utxo_views(utxos@),
            0 < i <= utxos.len(),
            k < i,
            k == last_largest(views.take(i as int)),
        decreases utxos.len() - i,
    {
        proof {
            assert(views[i as int] == utxos[i as int]@);
            assert(views[k as int] == utxos[k as int]@);
            assert(views.take(i + 1).drop_last() =~= views.take(i as int));
        }
        if utxos[i].entry.amount >= utxos[k].entry.amount {
            k = i;
        }
        i += 1;
    }
    proof {
        assert(views.take(utxos.len() as int) =~= views);
        last_largest_is_largest(views);
        assert forall|i: int| 0 <= i < utxos.len() implies (#[trigger] utxos[i]).entry.amount
            <= utxos[k as int].entry.amount && (k < i ==> utxos[i].entry.amount
            < utxos[k as int].entry.amount) by {
            assert(views[i] == utxos[i]@ && views[k as int] == utxos[k as int]@);
        }
    }
    k
}

/// No output is larger than the largest, and none behind it is as large.
pub proof fn last_largest_is_largest(utxos: Seq<UtxoView>)
    requires
        utxos.len() > 0,
    ensures
        is_last_largest(utxos, last_largest(utxos)),
    decreases utxos.len(),
{
    if utxos.len() > 1 {
        let earlier = utxos.drop_last();
        last_largest_is_largest(earlier);
        let k = last_largest(earlier);
        assert forall|i: int| 0 <= i < utxos.len() implies (#[trigger] utxos[i]).entry.amount
            <= utxos[last_largest(utxos)].entry.amount by {
            if i < earlier.len() {
                assert(earlier[i] == utxos[i]);
                assert(earlier[k] == utxos[k]);
            }
        }
        assert forall|i: int| last_largest(utxos) < i < utxos.len() implies (
        #[trigger] utxos[i]).entry.amount < utxos[last_largest(utxos)].entry.amount by {
            if i < earlier.len() {
                assert(earlier[i] == utxos[i]);
                assert(earlier[k] == utxos[k]);
            }
        }
    }
}

/// An output that can be spent stays so as the chain grows.
pub proof fn spendable_stays(entry: UtxoEntryView, score: u64, later: u64, coinbase_maturity: u64)
    requires
        score <= later,
        spendable(entry, score, coinbase_maturity),
    ensures
        spendable(entry, later, coinbase_maturity),
{
}

/// Nothing but outputs of the report that can be spent is picked, and all of them are.
pub proof fn spendable_part_is_exact(
    report: Seq<ReportedUtxoView>,
    virtual_daa_score: u64,
    coinbase_maturity: u64,
    utxo: UtxoView,
)
    ensures
        largest_first(
            spendable_part(report, virtual_daa_score, coinbase_maturity),
        ).to_multiset().count(utxo) > 0 <==> exists|i: int|
            0 <= i < report.len() && (#[trigger] report[i]).utxo == utxo && spendable(
                utxo.entry,
                virtual_daa_score,
                coinbase_maturity,
            ),
{
    broadcast use vstd::seq_lib::group_filter_ensures;

    let pred = |r: ReportedUtxoView|
        spendable(r.utxo.entry, virtual_daa_score, coinbase_maturity);
    let kept = report.filter(pred);
    let part = spendable_part(report, virtual_daa_score, coinbase_maturity);
    largest_first_keeps_outputs(part);
    part.to_multiset_ensures();
    if part.contains(utxo) {
        let k = part.index_of(utxo);
        assert(kept[k].utxo == utxo);
        assert(kept.contains(kept[k]));
        report.lemma_filter_contains_rev(pred, kept[k]);
        let i = report.index_of(kept[k]);
        assert(report[i].utxo == utxo);
    }
    if exists|i: int|
        0 <= i < report.len() && (#[trigger] report[i]).utxo == utxo && spendable(
            utxo.entry,
            virtual_daa_score,
            coinbase_maturity,
        ) {
        let i = choose|i: int|
            0 <= i < report.len() && (#[trigger] report[i]).utxo == utxo && spendable(
                utxo.entry,
                virtual_daa_score,
                coinbase_maturity,
            );
        assert(kept.contains(report[i]));
        let k = kept.index_of(report[i]);
        assert(part[k] == utxo);
    }
}

/// A larger coinbase maturity leaves out coinbase outputs alone, and keeps the rest in order.
pub proof fn maturity_drops_coinbase_only(
    report: Seq<ReportedUtxoView>,
    virtual_daa_score: u64,
    coinbase_maturity: u64,
    larger: u64,
)
    requires
        coinbase_maturity <= larger,
    ensures
        ({
            let mature = |u: UtxoView| spendable(u.entry, virtual_daa_score, larger);
            let before = largest_first(
                spendable_part(report, virtual_daa_score, coinbase_maturity),
            );
            let after = largest_first(spendable_part(report, virtual_daa_score, larger));
            &&& after == before.filter(mature)
            &&& forall|u: UtxoView|
                #![trigger before.contains(u)]
                before.contains(u) && !after.contains(u) ==> u.entry.is_coinbase
        }),
{
    broadcast use vstd::seq_lib::group_filter_ensures;

    let mature = |u: UtxoView| spendable(u.entry, virtual_daa_score, larger);
    let part = spendable_part(report, virtual_daa_score, coinbase_maturity);
    let before = largest_first(part);
    let after = largest_first(spendable_part(report, virtual_daa_score, larger));
    maturity_filters(report, virtual_daa_score, coinbase_maturity, larger);
    largest_first_filters(part, mature);
    assert forall|u: UtxoView|
        #![trigger before.contains(u)]
        before.contains(u) && !after.contains(u) implies u.entry.is_coinbase by {
        spendable_part_is_exact(report, virtual_daa_score, coinbase_maturity, u);
        before.to_multiset_ensures();
        if mature(u) {
            let k = before.index_of(u);
            assert(before.filter(mature).contains(before[k]));
        }
    }
}

/// What a larger coinbase maturity leaves of a report is a part of what the smaller one does.
proof fn maturity_filters(
    report: Seq<ReportedUtxoView>,
    virtual_daa_score: u64,
    coinbase_maturity: u64,
    larger: u64,
)
    requires
        coinbase_maturity <= larger,
    ensures
        spendable_part(report, virtual_daa_score, larger) == spendable_part(
            report,
            virtual_daa_score,
            coinbase_maturity,
        ).filter(|u: UtxoView| spendable(u.entry, virtual_daa_score, larger)),
    decreases report.len(),
{
    reveal(Seq::filter);
    let mature = |u: UtxoView| spendable(u.entry, virtual_daa_score, larger);
    let small = spendable_part(report, virtual_daa_score, coinbase_maturity);
    let large = spendable_part(report, virtual_daa_score, larger);
    if report.len() > 0 {
        let earlier = report.drop_last();
        let utxo = report.last().utxo;
        maturity_filters(earlier, virtual_daa_score, coinbase_maturity, larger);
        let small_earlier = spendable_part(earlier, virtual_daa_score, coinbase_maturity);
        let large_earlier = spendable_part(earlier, virtual_daa_score, larger);
        if spendable(utxo.entry, virtual_daa_score, coinbase_maturity) {
            assert(small =~= small_earlier.push(utxo));
            assert(small.drop_last() =~= small_earlier);
        } else {
            assert(small =~= small_earlier);
        }
        if mature(utxo) {
            assert(large =~= large_earlier.push(utxo));
        } else {
            assert(large =~= large_earlier);
        }
    } else {
        assert(small =~= Seq::empty());
        assert(large =~= Seq::empty());
    }
}

/// An output can be spent exactly when it has its confirmations, ten of them or those of a
/// coinbase, whatever it is worth and whoever it pays.
pub proof fn spendable_has_its_confirmations(
    entry: UtxoEntryView,
    virtual_daa_score: u64,
    coinbase_maturity: u64,
)
    ensures
        !entry.is_coinbase ==> (spendable(entry, virtual_daa_score, coinbase_maturity)
            <==> virtual_daa_score - entry.block_daa_score >= 10),
        entry.is_coinbase ==> (spendable(entry, virtual_daa_score, coinbase_maturity)
            <==> virtual_daa_score - entry.block_daa_score >= coinbase_maturity),
{
}

/// Two outputs of one age and kind can both be spent, or neither.
pub proof fn spendable_goes_by_age_and_kind(
    a: UtxoEntryView,
    b: UtxoEntryView,
    virtual_daa_score: u64,
    coinbase_maturity: u64,
)
    requires
        a.block_daa_score == b.block_daa_score,
        a.is_coinbase == b.is_coinbase,
    ensures
        spendable(a, virtual_daa_score, coinbase_maturity) == spendable(
            b,
            virtual_daa_score,
            coinbase_maturity,
        ),
{
}

/// The views of a report are those of its entries, in order, and show all that was reported.
pub proof fn reports_are_viewed_in_order(report: Seq<ReportedUtxo>)
    ensures
        report_views(report).len() == report.len(),
        forall|i: int|
            0 <= i < report.len() ==> {
                let seen = #[trigger] report_views(report)[i];
                &&& seen.utxo == report[i].utxo@
                &&& match report[i].address {
                    Some(address) => seen.address == Some(address@),
                    None => seen.address is None,
                }
            },
{
}

/// A report is read entry by entry: one more entry adds its output behind the others, where that
/// has its confirmations, and nothing else.
pub proof fn reports_are_read_entry_by_entry(
    report: Seq<ReportedUtxoView>,
    entry: ReportedUtxoView,
    virtual_daa_score: u64,
    coinbase_maturity: u64,
)
    ensures
        spendable_part(
            Seq::empty(),
            virtual_daa_score,
            coinbase_maturity,
        ).len() == 0,
        ({
            let utxo = entry.utxo;
            let needed = if utxo.entry.is_coinbase {
                coinbase_maturity as int
            } else {
                10
            };
            let before = spendable_part(report, virtual_daa_score, coinbase_maturity);
            spendable_part(report.push(entry), virtual_daa_score, coinbase_maturity) == (
            if virtual_daa_score - utxo.entry.block_daa_score >= needed {
                before.push(utxo)
            } else {
                before
            })
        }),
{
    reveal(Seq::filter);
    let longer = report.push(entry);
    assert(longer.drop_last() =~= report);
    let before = spendable_part(report, virtual_daa_score, coinbase_maturity);
    let after = spendable_part(longer, virtual_daa_score, coinbase_maturity);
    if spendable(entry.utxo.entry, virtual_daa_score, coinbase_maturity) {
        assert(after =~= before.push(entry.utxo));
    } else {
        assert(after =~= before);
    }
}

/// One more entry of a report leaves it in order when it is still young, or is said to pay the
/// address; a report without entries is in order.
pub proof fn reports_are_checked_entry_by_entry(
    report: Seq<ReportedUtxoView>,
    entry: ReportedUtxoView,
    address: AddressView,
    virtual_daa_score: u64,
    coinbase_maturity: u64,
)
    ensures
        all_pay(Seq::empty(), address, virtual_daa_score, coinbase_maturity),
        ({
            let utxo = entry.utxo;
            let needed = if utxo.entry.is_coinbase {
                coinbase_maturity as int
            } else {
                10
            };
            all_pay(report.push(entry), address, virtual_daa_score, coinbase_maturity) <==> all_pay(
                report,
                address,
                virtual_daa_score,
                coinbase_maturity,
            ) && (virtual_daa_score - utxo.entry.block_daa_score < needed || entry.address
                == Some(address))
        }),
{
    let longer = report.push(entry);
    if all_pay(longer, address, virtual_daa_score, coinbase_maturity) {
        assert forall|i: int|
            0 <= i < report.len() && spendable(
                (#[trigger] report[i]).utxo.entry,
                virtual_daa_score,
                coinbase_maturity,
            ) implies report[i].address == Some(address) by {
            assert(longer[i] == report[i]);
        }
        assert(longer[report.len() as int] == entry);
    }
}

/// One more output adds its amount to the sum, and nothing adds up to nothing.
pub proof fn total_adds_up(utxos: Seq<UtxoView>, utxo: UtxoView)
    ensures
        total(Seq::empty()) == 0,
        total(utxos.push(utxo)) == total(utxos) + utxo.entry.amount,
{
    assert(utxos.push(utxo).drop_last() =~= utxos);
}

/// The largest output is one of the outputs, none is larger, and none behind it is as large.
pub proof fn largest_in_full(utxos: Seq<UtxoView>, i: int)
    requires
        0 <= i < utxos.len(),
    ensures
        ({
            let k = last_largest(utxos);
            &&& 0 <= k < utxos.len()
            &&& utxos[i].entry.amount <= utxos[k].entry.amount
            &&& k < i ==> utxos[i].entry.amount < utxos[k].entry.amount
        }),
{
    last_largest_is_largest(utxos);
}

} // verus!
