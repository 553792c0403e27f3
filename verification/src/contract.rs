//! The externally invokable operations: bootstrap, pair registration,
//! order intake and matching, and batch settlement.

use vstd::arithmetic::div_mod::{
    lemma_div_is_ordered, lemma_div_multiples_vanish, lemma_div_pos_is_pos,
};
use vstd::arithmetic::mul::{lemma_mul_inequality, lemma_mul_is_commutative};
use vstd::prelude::*;

use crate::error::ContractError;
use crate::msg::{ExecuteMsg, InstantiateMsg, QueryMsg, Response};
use crate::state::{
    lemma_canon_key_eq, lemma_register_pairs_push, lemma_surplus_bounds, pair_at, pair_wf,
    prepared, register_pairs, seq_views, AssetAmount, AssetAmountView, EngineView, OrderInfo,
    OrderInfoView, PairConfiguration, PairConfigurationView, SettlementEngine,
    SettlementInstruction, SettlementInstructionView,
};

verus! {

// ---------------------------------------------------------------------------
// Trusted arithmetic wrapper
// ---------------------------------------------------------------------------

/// Relies on `cosmwasm_std::Uint128::multiply_ratio`: it returns
/// `a * numerator / denominator`, computed with a 256-bit intermediate
/// product and floor division, and panics only on a zero denominator or
/// on a result above `u128::MAX` — both excluded here.
#[verifier::external_body]
fn mul_ratio(a: u128, numerator: u128, denominator: u128) -> (r: u128)
    requires
        denominator != 0,
        a * numerator / (denominator as int) <= u128::MAX,
    ensures
        r == a * numerator / (denominator as int),
{
    cosmwasm_std::Uint128::new(a).multiply_ratio(numerator, denominator).u128()
}

// ---------------------------------------------------------------------------
// The matching model
// ---------------------------------------------------------------------------

/// Input validity for registration: every configuration names a positive
/// clearing price (a zero price would divide by zero) and two distinct
/// denominations (a pair names two different assets).
pub open spec fn valid_pair_inputs(assets: Seq<PairConfigurationView>) -> bool {
    forall|i: int|
        0 <= i < assets.len() ==> ((#[trigger] assets[i]).exchange_rate > 0 && assets[i].base.denom
            != assets[i].quote.denom)
}

/// Whether an order draws on the surplus side of its pair: a surplus is
/// declared and sits on the denomination the caller supplies.
pub open spec fn has_route(p: PairConfigurationView, supply: AssetAmountView) -> bool {
    p.surplus matches Some(s) && s.denom == supply.denom
}

/// The declared total supply on the side the caller supplies.
pub open spec fn side_total(p: PairConfigurationView, supply: AssetAmountView) -> int {
    if supply.denom == p.base.denom {
        p.base.amount
    } else {
        p.quote.amount
    }
}

/// The caller's proportional share of the pair's surplus: the part of the
/// supplied quantity routed to the external venue. Zero for a caller on
/// the matched side. Exact-ratio multiply-then-divide, floor rounding.
pub open spec fn routed_amount(p: PairConfigurationView, supply: AssetAmountView) -> int {
    if has_route(p, supply) {
        supply.amount * p.surplus->Some_0.amount / side_total(p, supply)
    } else {
        0
    }
}

/// The internally matched remainder of the supplied quantity.
pub open spec fn matched_amount(p: PairConfigurationView, supply: AssetAmountView) -> int {
    supply.amount - routed_amount(p, supply)
}

/// The quantity paid out by direct transfer: the matched remainder
/// converted into the requested denomination at the clearing price —
/// scaled up by the rate from the base side, down (floor) from the quote
/// side.
pub open spec fn clearing_amount(p: PairConfigurationView, supply: AssetAmountView) -> int {
    if supply.denom == p.base.denom {
        matched_amount(p, supply) * p.exchange_rate
    } else {
        matched_amount(p, supply) / p.exchange_rate
    }
}

/// The instructions emitted for one matched order, in emission order: a
/// route-to-venue instruction for the routed share when the caller is on
/// the surplus side, then always the direct transfer of the clearing
/// amount.
pub open spec fn emitted_msgs(
    p: PairConfigurationView,
    supply: AssetAmountView,
    buy: Seq<char>,
    spread: int,
    sender: Seq<char>,
    venue: Seq<char>,
) -> Seq<SettlementInstructionView> {
    let transfer = SettlementInstructionView::DirectTransfer {
        to: sender,
        amount: AssetAmountView { denom: buy, amount: clearing_amount(p, supply) },
    };
    if has_route(p, supply) {
        seq![
            SettlementInstructionView::RouteToVenue {
                venue: venue,
                offer: AssetAmountView { denom: supply.denom, amount: routed_amount(p, supply) },
                ask_denom: buy,
                max_spread: spread,
                to: sender,
            },
            transfer,
        ]
    } else {
        seq![transfer]
    }
}

/// The machine-range condition an order must meet: when the caller
/// supplies the base side, the matched remainder scaled at the clearing
/// price must fit a `u128`. Forced by machine limits alone; every other
/// intermediate quantity is bounded by construction.
pub open spec fn deposit_fits(s: EngineView, info: OrderInfoView, buy: Seq<char>) -> bool {
    info.funds.len() > 0 ==> match pair_at(s, info.funds[0].denom, buy) {
        Some(p) => info.funds[0].denom == p.base.denom ==> matched_amount(p, info.funds[0])
            * p.exchange_rate <= u128::MAX,
        None => true,
    }
}

/// For a well-formed pair, the routed share is bounded by the supplied
/// quantity: the surplus sits on the supplied side and never exceeds that
/// side's declared total.
pub proof fn lemma_routed_amount_bounds(p: PairConfigurationView, supply: AssetAmountView)
    requires
        pair_wf(p),
        0 <= supply.amount,
        supply.denom == p.base.denom || supply.denom == p.quote.denom,
    ensures
        0 <= routed_amount(p, supply) <= supply.amount,
        has_route(p, supply) ==> 0 < p.surplus->Some_0.amount <= side_total(p, supply),
{
    if has_route(p, supply) {
        let s = p.surplus->Some_0;
        let t = side_total(p, supply);
        lemma_surplus_bounds(p.base, p.quote, p.exchange_rate);
        assert(0 < s.amount <= t);
        // supply * s <= supply * t, so (supply * s) / t <= (supply * t) / t == supply
        lemma_mul_inequality(s.amount, t, supply.amount);
        lemma_mul_is_commutative(s.amount, supply.amount);
        lemma_mul_is_commutative(t, supply.amount);
        lemma_div_is_ordered(supply.amount * s.amount, supply.amount * t, t);
        lemma_mul_is_commutative(supply.amount, t);
        lemma_div_multiples_vanish(supply.amount, t);
        lemma_mul_inequality(0, s.amount, supply.amount);
        lemma_div_pos_is_pos(supply.amount * s.amount, t);
    }
}

// ---------------------------------------------------------------------------
// Operations
// ---------------------------------------------------------------------------

/// Bootstrap: record the address of the external liquidity venue. The
/// pair registry and the settlement queue start empty.
pub fn instantiate(msg: InstantiateMsg) -> (s: SettlementEngine)
    ensures
        s@.venue == msg.astroport_address@,
        s@.pairs == Seq::<PairConfigurationView>::empty(),
        s@.messages == Seq::<SettlementInstructionView>::empty(),
        s.wf(),
{
    let s = SettlementEngine {
        venue_address: msg.astroport_address,
        pairs: Vec::new(),
        messages: Vec::new(),
    };
    proof {
        assert(s@.pairs =~= Seq::<PairConfigurationView>::empty());
        assert(s@.messages =~= Seq::<SettlementInstructionView>::empty());
    }
    s
}

/// Register a batch of pair configurations and reset the settlement
/// queue, opening a new batch window.
///
/// For each configuration, the base demand is the base quantity needed to
/// absorb the declared quote supply at the clearing price (floor
/// division); the surplus is the excess on whichever side overshoots it,
/// and the configuration is stored under its canonical key, replacing any
/// earlier registration of the same pair.
pub fn prepare(state: &mut SettlementEngine, assets: Vec<PairConfiguration>) -> (r: Result<
    Response,
    ContractError,
>)
    requires
        old(state).wf(),
        valid_pair_inputs(seq_views(assets@)),
    ensures
        final(state).wf(),
        final(state)@.venue == old(state)@.venue,
        final(state)@.pairs == register_pairs(old(state)@.pairs, seq_views(assets@)),
        final(state)@.messages == Seq::<SettlementInstructionView>::empty(),
        r matches Ok(resp) && resp@ == Seq::<SettlementInstructionView>::empty(),
{
    let ghost avs = seq_views(assets@);
    let ghost orig = state@.pairs;
    proof {
        assert(avs.take(0) =~= Seq::<PairConfigurationView>::empty());
    }
    let n = assets.len();
    let mut i: usize = 0;
    while i < n
        invariant
            i <= n,
            n == assets.len(),
            avs == seq_views(assets@),
            valid_pair_inputs(avs),
            state.wf(),
            orig == old(state)@.pairs,
            state@.venue == old(state)@.venue,
            state@.messages == old(state)@.messages,
            state@.pairs == register_pairs(orig, avs.take(i as int)),
        decreases n - i,
    {
        let a = &assets[i];
        proof {
            assert(a@ == avs[i as int]);
            assert(avs[i as int].exchange_rate > 0);
        }
        let base_demand: u128 = a.quote.amount / a.exchange_rate;
        let surplus: Option<AssetAmount>;
        if a.base.amount == base_demand {
            surplus = None;
        } else if a.base.amount > base_demand {
            surplus = Some(
                AssetAmount { denom: a.base.denom.clone(), amount: a.base.amount - base_demand },
            );
        } else {
            proof {
                lemma_surplus_bounds(a@.base, a@.quote, a@.exchange_rate);
            }
            surplus = Some(
                AssetAmount {
                    denom: a.quote.denom.clone(),
                    amount: (base_demand - a.base.amount) * a.exchange_rate,
                },
            );
        }
        let cfg = PairConfiguration {
            base: a.base.clone(),
            quote: a.quote.clone(),
            surplus,
            exchange_rate: a.exchange_rate,
        };
        proof {
            assert(cfg@ == prepared(a@));
            assert(pair_wf(cfg@));
        }
        state.upsert_pair(cfg);
        proof {
            lemma_register_pairs_push(orig, avs.take(i as int), avs[i as int]);
            assert(avs.take(i as int).push(avs[i as int]) =~= avs.take(i as int + 1));
        }
        i = i + 1;
    }
    proof {
        assert(avs.take(n as int) =~= avs);
    }
    state.messages = Vec::new();
    proof {
        assert(state@.messages =~= Seq::<SettlementInstructionView>::empty());
    }
    Ok(Response::default())
}

/// Submit one order against the current batch.
///
/// The caller's offer is the first attached amount; the order resolves to
/// the registered pair for the canonical key of (supplied denomination,
/// `buy_denom`). A caller on the surplus side first has their
/// proportional share of the surplus routed to the venue; the remainder
/// is converted at the clearing price and paid by direct transfer. An
/// order with no attached funds, or with no registered pair, is refused
/// with `InvalidOrder` and leaves the engine unchanged.
pub fn deposit(
    state: &mut SettlementEngine,
    info: &OrderInfo,
    buy_denom: String,
    slippage_tolerance: u128,
) -> (r: Result<Response, ContractError>)
    requires
        old(state).wf(),
        deposit_fits(old(state)@, info@, buy_denom@),
    ensures
        final(state).wf(),
        final(state)@.venue == old(state)@.venue,
        final(state)@.pairs == old(state)@.pairs,
        info@.funds.len() == 0 ==> (r matches Err(e) && e == ContractError::InvalidOrder)
            && final(state)@ == old(state)@,
        info@.funds.len() > 0 && pair_at(old(state)@, info@.funds[0].denom, buy_denom@) is None
            ==> (r matches Err(e) && e == ContractError::InvalidOrder) && final(state)@ == old(
            state,
        )@,
        info@.funds.len() > 0 ==> (pair_at(old(state)@, info@.funds[0].denom, buy_denom@) matches
            Some(p) ==> (r matches Ok(resp) && resp@ == Seq::<SettlementInstructionView>::empty())
            && final(state)@.messages == old(state)@.messages + emitted_msgs(
            p,
            info@.funds[0],
            buy_denom@,
            slippage_tolerance as int,
            info@.sender,
            old(state)@.venue,
        )),
{
    if info.funds.len() == 0 {
        return Err(ContractError::InvalidOrder);
    }
    let supply = &info.funds[0];
    proof {
        assert(supply@ == info@.funds[0]);
    }
    let found = state.find_pair_index(&supply.denom, &buy_denom);
    let i = match found {
        Some(i) => i,
        None => {
            return Err(ContractError::InvalidOrder);
        },
    };
    let pair = &state.pairs[i];
    let ghost p = pair@;
    proof {
        assert(p == state@.pairs[i as int]);
        assert(pair_wf(p));
        lemma_canon_key_eq(p.base.denom, p.quote.denom, supply.denom@, buy_denom@);
        assert(supply@.denom == p.base.denom || supply@.denom == p.quote.denom);
    }
    let is_base = supply.denom == pair.base.denom;
    let rate = pair.exchange_rate;
    let mut remaining: u128 = supply.amount;
    let mut out_msgs: Vec<SettlementInstruction> = Vec::new();
    match &pair.surplus {
        Some(s) => {
            if s.denom == supply.denom {
                let total = if is_base {
                    pair.base.amount
                } else {
                    pair.quote.amount
                };
                proof {
                    lemma_routed_amount_bounds(p, supply@);
                    assert(total as int == side_total(p, supply@));
                }
                let residual = mul_ratio(supply.amount, s.amount, total);
                proof {
                    assert(residual as int == routed_amount(p, supply@));
                }
                out_msgs.push(
                    SettlementInstruction::RouteToVenue {
                        venue: state.venue_address.clone(),
                        offer: AssetAmount { denom: supply.denom.clone(), amount: residual },
                        ask_denom: buy_denom.clone(),
                        max_spread: slippage_tolerance,
                        to: info.sender.clone(),
                    },
                );
                remaining = supply.amount - residual;
            }
        },
        None => {},
    }
    proof {
        assert(remaining as int == matched_amount(p, supply@));
    }
    let clearing_out: u128;
    if is_base {
        proof {
            assert(matched_amount(p, supply@) * p.exchange_rate <= u128::MAX);
        }
        clearing_out = remaining * rate;
    } else {
        clearing_out = remaining / rate;
    }
    out_msgs.push(
        SettlementInstruction::DirectTransfer {
            to: info.sender.clone(),
            amount: AssetAmount { denom: buy_denom, amount: clearing_out },
        },
    );
    let ghost msgs0 = state@.messages;
    let ghost expected = emitted_msgs(
        p,
        info@.funds[0],
        buy_denom@,
        slippage_tolerance as int,
        info@.sender,
        state@.venue,
    );
    proof {
        assert(seq_views(out_msgs@) =~= expected);
    }
    state.messages.append(&mut out_msgs);
    proof {
        assert(state@.messages =~= msgs0 + expected);
    }
    Ok(Response::default())
}

/// Close the batch: return every accumulated settlement instruction, in
/// submission order. Settlement is a pure read — the queue itself is left
/// untouched, so a repeated settlement without intervening orders returns
/// the same batch.
pub fn settle(state: &SettlementEngine) -> (r: Response)
    ensures
        r@ == state@.messages,
{
    let mut out: Vec<SettlementInstruction> = Vec::new();
    proof {
        assert(seq_views(out@) =~= state@.messages.take(0));
    }
    let mut i: usize = 0;
    while i < state.messages.len()
        invariant
            i <= state.messages.len(),
            out@.len() == i as int,
            seq_views(out@) == state@.messages.take(i as int),
        decreases state.messages.len() - i,
    {
        let m = state.messages[i].clone();
        proof {
            assert(state@.messages[i as int] == state.messages@[i as int]@);
            assert(m@ == state@.messages[i as int]);
        }
        let ghost prev = out@;
        out.push(m);
        proof {
            assert(out@ == prev.push(m));
            assert forall|j: int| 0 <= j <= i as int implies seq_views(out@)[j] == state@.messages.take(
                i as int + 1,
            )[j] by {
                if j < i as int {
                    assert(prev.push(m)[j] == prev[j]);
                    assert(seq_views(prev)[j] == state@.messages.take(i as int)[j]);
                } else {
                    assert(prev.push(m)[j] == m);
                }
            }
            assert(seq_views(out@) =~= state@.messages.take(i as int + 1));
        }
        i = i + 1;
    }
    proof {
        assert(state@.messages.take(state.messages.len() as int) =~= state@.messages);
    }
    Response { messages: out }
}

/// Dispatch one externally invoked operation.
pub fn execute(state: &mut SettlementEngine, info: &OrderInfo, msg: ExecuteMsg) -> (r: Result<
    Response,
    ContractError,
>)
    requires
        old(state).wf(),
        msg matches ExecuteMsg::Prepare { assets } ==> valid_pair_inputs(seq_views(assets@)),
        msg matches ExecuteMsg::Supply { quote, .. } ==> deposit_fits(old(state)@, info@, quote@),
    ensures
        final(state).wf(),
        final(state)@.venue == old(state)@.venue,
        msg matches ExecuteMsg::Prepare { assets } ==> {
            &&& final(state)@.pairs == register_pairs(old(state)@.pairs, seq_views(assets@))
            &&& final(state)@.messages == Seq::<SettlementInstructionView>::empty()
            &&& r matches Ok(resp) && resp@ == Seq::<SettlementInstructionView>::empty()
        },
        msg matches ExecuteMsg::Supply { quote, slippage_tolerance } ==> {
            &&& final(state)@.pairs == old(state)@.pairs
            &&& info@.funds.len() == 0 ==> (r matches Err(e) && e == ContractError::InvalidOrder)
                && final(state)@ == old(state)@
            &&& info@.funds.len() > 0 && pair_at(old(state)@, info@.funds[0].denom, quote@)
                is None ==> (r matches Err(e) && e == ContractError::InvalidOrder) && final(state)@
                == old(state)@
            &&& info@.funds.len() > 0 ==> (pair_at(old(state)@, info@.funds[0].denom, quote@)
                matches Some(p) ==> (r matches Ok(resp) && resp@ == Seq::<
                SettlementInstructionView,
            >::empty()) && final(state)@.messages == old(state)@.messages + emitted_msgs(
                p,
                info@.funds[0],
                quote@,
                slippage_tolerance as int,
                info@.sender,
                old(state)@.venue,
            ))
        },
        msg matches ExecuteMsg::Settle { .. } ==> final(state)@ == old(state)@ && (r matches Ok(
            resp,
        ) && resp@ == old(state)@.messages),
{
    match msg {
        ExecuteMsg::Prepare { assets } => prepare(state, assets),
        ExecuteMsg::Supply { quote, slippage_tolerance } => deposit(
            state,
            info,
            quote,
            slippage_tolerance,
        ),
        ExecuteMsg::Settle {  } => Ok(settle(state)),
    }
}

/// The query surface defines no operations: every query is refused with a
/// typed error rather than an abort.
pub fn query(_msg: QueryMsg) -> (r: Result<Response, ContractError>)
    ensures
        r matches Err(e) && e == ContractError::UnsupportedQuery,
{
    Err(ContractError::UnsupportedQuery)
}

// ---------------------------------------------------------------------------
// Batch-level guarantees
// ---------------------------------------------------------------------------

/// The total quantity of denomination `d` offered to the venue by the
/// instructions in `ms`.
pub open spec fn route_offer_total(ms: Seq<SettlementInstructionView>, d: Seq<char>) -> int
    decreases ms.len(),
{
    if ms.len() == 0 {
        0
    } else {
        (match ms[0] {
            SettlementInstructionView::RouteToVenue { offer, .. } => if offer.denom == d {
                offer.amount
            } else {
                0
            },
            SettlementInstructionView::DirectTransfer { .. } => 0,
        }) + route_offer_total(ms.skip(1), d)
    }
}

/// The total quantity of denomination `d` paid out directly by the
/// instructions in `ms`.
pub open spec fn transfer_total(ms: Seq<SettlementInstructionView>, d: Seq<char>) -> int
    decreases ms.len(),
{
    if ms.len() == 0 {
        0
    } else {
        (match ms[0] {
            SettlementInstructionView::RouteToVenue { .. } => 0,
            SettlementInstructionView::DirectTransfer { amount, .. } => if amount.denom == d {
                amount.amount
            } else {
                0
            },
        }) + transfer_total(ms.skip(1), d)
    }
}

/// Conservation: the instructions emitted for one order account for the
/// caller's entire supplied quantity. The amount offered to the venue on
/// the supplied denomination plus the internally matched remainder equals
/// the supplied quantity exactly, and the direct transfer pays out
/// precisely that remainder converted at the clearing price — no quantity
/// is silently dropped.
pub proof fn lemma_conservation(
    p: PairConfigurationView,
    supply: AssetAmountView,
    buy: Seq<char>,
    spread: int,
    sender: Seq<char>,
    venue: Seq<char>,
)
    requires
        pair_wf(p),
        0 <= supply.amount <= u128::MAX,
        (supply.denom == p.base.denom && buy == p.quote.denom) || (supply.denom == p.quote.denom
            && buy == p.base.denom),
    ensures
        route_offer_total(emitted_msgs(p, supply, buy, spread, sender, venue), supply.denom)
            + matched_amount(p, supply) == supply.amount,
        transfer_total(emitted_msgs(p, supply, buy, spread, sender, venue), buy)
            == clearing_amount(p, supply),
        0 <= routed_amount(p, supply) <= supply.amount,
        0 <= matched_amount(p, supply) <= supply.amount,
{
    lemma_routed_amount_bounds(p, supply);
    let ms = emitted_msgs(p, supply, buy, spread, sender, venue);
    let tail = ms.skip(1);
    if has_route(p, supply) {
        assert(ms.len() == 2);
        assert(tail =~= seq![ms[1]]);
        assert(tail.skip(1) =~= Seq::<SettlementInstructionView>::empty());
        assert(route_offer_total(tail.skip(1), supply.denom) == 0);
        assert(route_offer_total(tail, supply.denom) == 0);
        assert(route_offer_total(ms, supply.denom) == routed_amount(p, supply));
        assert(transfer_total(tail.skip(1), buy) == 0);
        assert(transfer_total(tail, buy) == clearing_amount(p, supply));
        assert(transfer_total(ms, buy) == clearing_amount(p, supply));
    } else {
        assert(ms.len() == 1);
        assert(tail =~= Seq::<SettlementInstructionView>::empty());
        assert(route_offer_total(tail, supply.denom) == 0);
        assert(route_offer_total(ms, supply.denom) == 0);
        assert(transfer_total(tail, buy) == 0);
        assert(transfer_total(ms, buy) == clearing_amount(p, supply));
    }
}

/// Surplus exclusivity: a caller supplying the non-surplus side of a pair
/// never receives a route-to-venue instruction — the only instruction
/// emitted for such an order is the direct transfer of the clearing
/// amount.
pub proof fn lemma_surplus_exclusivity(
    p: PairConfigurationView,
    supply: AssetAmountView,
    buy: Seq<char>,
    spread: int,
    sender: Seq<char>,
    venue: Seq<char>,
)
    requires
        !has_route(p, supply),
    ensures
        emitted_msgs(p, supply, buy, spread, sender, venue).len() == 1,
        emitted_msgs(p, supply, buy, spread, sender, venue)[0] is DirectTransfer,
        forall|i: int|
            0 <= i < emitted_msgs(p, supply, buy, spread, sender, venue).len() ==> !(emitted_msgs(
                p,
                supply,
                buy,
                spread,
                sender,
                venue,
            )[i] is RouteToVenue),
{
}

/// Idempotent flush: settlement is a pure read of the accumulated queue,
/// so two settlement results taken from the same engine state, with no
/// intervening order or registration, are identical.
pub proof fn lemma_settle_idempotent(
    s: EngineView,
    r1: Seq<SettlementInstructionView>,
    r2: Seq<SettlementInstructionView>,
)
    requires
        r1 == s.messages,
        r2 == s.messages,
    ensures
        r1 == r2,
{
}

} // verus!

