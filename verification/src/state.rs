//! Data model of the settlement engine: asset amounts, pair configurations
//! with their precomputed directional surplus, outbound settlement
//! instructions, and the engine state that every operation is threaded
//! through.

use vstd::arithmetic::div_mod::{
    lemma_div_pos_is_pos, lemma_fundamental_div_mod, lemma_mod_bound,
};
use vstd::arithmetic::mul::{lemma_mul_inequality, lemma_mul_is_commutative};
use vstd::prelude::*;

verus! {

// ---------------------------------------------------------------------------
// Asset amounts
// ---------------------------------------------------------------------------

/// A non-negative quantity of a single denomination.
#[derive(Debug, PartialEq, Eq)]
pub struct AssetAmount {
    pub denom: String,
    pub amount: u128,
}

/// Mathematical model of an [`AssetAmount`].
pub ghost struct AssetAmountView {
    pub denom: Seq<char>,
    pub amount: int,
}

impl View for AssetAmount {
    type V = AssetAmountView;

    open spec fn view(&self) -> AssetAmountView {
        AssetAmountView { denom: self.denom@, amount: self.amount as int }
    }
}

impl Clone for AssetAmount {
    fn clone(&self) -> (r: AssetAmount)
        ensures
            r@ == self@,
    {
        AssetAmount { denom: self.denom.clone(), amount: self.amount }
    }
}

/// Which side of a pair carries the excess that cannot be matched
/// internally, if any.
#[derive(Clone, Copy, Debug, PartialEq, Eq, Structural)]
pub enum Surplus {
    Base(u128),
    Quote(u128),
    Match,
}

// ---------------------------------------------------------------------------
// Lexicographic order on denominations and the canonical pair key
// ---------------------------------------------------------------------------

/// Lexicographic order on character sequences, by unicode scalar value.
/// This is the total order that normalizes an unordered denomination pair
/// into its canonical key.
pub open spec fn lex_le(a: Seq<char>, b: Seq<char>) -> bool
    decreases a.len(),
{
    if a.len() == 0 {
        true
    } else if b.len() == 0 {
        false
    } else if a[0] != b[0] {
        (a[0] as int) < (b[0] as int)
    } else {
        lex_le(a.skip(1), b.skip(1))
    }
}

/// The canonical key of an unordered denomination pair: the two
/// denominations, larger first. Lookup through this key is independent of
/// which side a caller supplies.
pub open spec fn canon_key(a: Seq<char>, b: Seq<char>) -> (Seq<char>, Seq<char>) {
    if lex_le(a, b) {
        (b, a)
    } else {
        (a, b)
    }
}

/// The lexicographic order is total.
pub proof fn lemma_lex_le_total(a: Seq<char>, b: Seq<char>)
    ensures
        lex_le(a, b) || lex_le(b, a),
    decreases a.len(),
{
    if a.len() != 0 && b.len() != 0 && a[0] == b[0] {
        lemma_lex_le_total(a.skip(1), b.skip(1));
    }
}

/// The lexicographic order is antisymmetric.
pub proof fn lemma_lex_le_antisymmetric(a: Seq<char>, b: Seq<char>)
    requires
        lex_le(a, b),
        lex_le(b, a),
    ensures
        a == b,
    decreases a.len(),
{
    if a.len() == 0 {
        assert(b.len() == 0);
        assert(a =~= b);
    } else {
        assert(b.len() != 0);
        assert(a[0] == b[0]);
        lemma_lex_le_antisymmetric(a.skip(1), b.skip(1));
        assert forall|i: int| 0 <= i < a.len() implies a[i] == b[i] by {
            if i > 0 {
                assert(a[i] == a.skip(1)[i - 1]);
                assert(b[i] == b.skip(1)[i - 1]);
            }
        }
        assert(a =~= b);
    }
}

/// Canonical lookup symmetry: the key of an unordered pair does not depend
/// on the order in which its two denominations are presented.
pub proof fn lemma_canon_key_symmetric(a: Seq<char>, b: Seq<char>)
    ensures
        canon_key(a, b) == canon_key(b, a),
{
    lemma_lex_le_total(a, b);
    if lex_le(a, b) && lex_le(b, a) {
        lemma_lex_le_antisymmetric(a, b);
    }
}

/// Two unordered pairs have the same canonical key exactly when they hold
/// the same two denominations.
pub proof fn lemma_canon_key_eq(a: Seq<char>, b: Seq<char>, x: Seq<char>, y: Seq<char>)
    ensures
        canon_key(a, b) == canon_key(x, y) <==> ((a == x && b == y) || (a == y && b == x)),
{
    lemma_canon_key_symmetric(a, b);
    lemma_canon_key_symmetric(x, y);
}

// ---------------------------------------------------------------------------
// Pair configurations
// ---------------------------------------------------------------------------

/// One asset pair's clearing terms for the current batch: the declared
/// supplies of both sides, the fixed clearing price (quote units per base
/// unit), and the directional surplus computed at registration time.
#[derive(Debug, PartialEq, Eq)]
pub struct PairConfiguration {
    pub base: AssetAmount,
    pub quote: AssetAmount,
    pub surplus: Option<AssetAmount>,
    pub exchange_rate: u128,
}

/// Mathematical model of a [`PairConfiguration`].
pub ghost struct PairConfigurationView {
    pub base: AssetAmountView,
    pub quote: AssetAmountView,
    pub surplus: Option<AssetAmountView>,
    pub exchange_rate: int,
}

impl View for PairConfiguration {
    type V = PairConfigurationView;

    open spec fn view(&self) -> PairConfigurationView {
        PairConfigurationView {
            base: self.base@,
            quote: self.quote@,
            surplus: match self.surplus {
                Some(s) => Some(s@),
                None => None,
            },
            exchange_rate: self.exchange_rate as int,
        }
    }
}

/// The canonical key under which a pair configuration is registered.
pub open spec fn pair_key(p: PairConfigurationView) -> (Seq<char>, Seq<char>) {
    canon_key(p.base.denom, p.quote.denom)
}

/// The directional surplus of a pair: the quantity, on whichever side has
/// excess, that cannot be matched internally at the clearing price.
///
/// `base_demand` is the base quantity needed to absorb the declared quote
/// supply at the clearing price; division rounds down (floor), uniformly.
/// A base excess is expressed in base units; a base shortfall is scaled
/// back into quote units through the rate.
pub open spec fn spec_surplus(
    base: AssetAmountView,
    quote: AssetAmountView,
    rate: int,
) -> Option<AssetAmountView>
    recommends
        rate > 0,
{
    let base_demand = quote.amount / rate;
    if base.amount == base_demand {
        None
    } else if base.amount > base_demand {
        Some(AssetAmountView { denom: base.denom, amount: base.amount - base_demand })
    } else {
        Some(AssetAmountView { denom: quote.denom, amount: (base_demand - base.amount) * rate })
    }
}

/// A pair configuration as the registry stores it: the surplus field holds
/// exactly the computed directional surplus.
pub open spec fn prepared(p: PairConfigurationView) -> PairConfigurationView {
    PairConfigurationView {
        base: p.base,
        quote: p.quote,
        surplus: spec_surplus(p.base, p.quote, p.exchange_rate),
        exchange_rate: p.exchange_rate,
    }
}

/// A well-formed registered pair: positive clearing price, two distinct
/// denominations, quantities within machine range, and a surplus field
/// that holds the computed directional surplus.
pub open spec fn pair_wf(p: PairConfigurationView) -> bool {
    &&& 0 < p.exchange_rate <= u128::MAX
    &&& 0 <= p.base.amount <= u128::MAX
    &&& 0 <= p.quote.amount <= u128::MAX
    &&& p.base.denom != p.quote.denom
    &&& p.surplus == spec_surplus(p.base, p.quote, p.exchange_rate)
}

/// The computed surplus is positive, sits on the declared side, and never
/// exceeds that side's declared supply.
pub proof fn lemma_surplus_bounds(base: AssetAmountView, quote: AssetAmountView, rate: int)
    requires
        rate > 0,
        0 <= base.amount,
        0 <= quote.amount,
    ensures
        spec_surplus(base, quote, rate) matches Some(s) ==> 0 < s.amount,
        base.amount > quote.amount / rate ==> (spec_surplus(base, quote, rate) matches Some(s)
            && s.denom == base.denom && s.amount <= base.amount),
        base.amount < quote.amount / rate ==> (spec_surplus(base, quote, rate) matches Some(s)
            && s.denom == quote.denom && s.amount <= quote.amount),
{
    let d = quote.amount / rate;
    lemma_div_pos_is_pos(quote.amount, rate);
    if base.amount < d {
        // (d - base) * rate <= d * rate == rate * d == quote - quote % rate <= quote
        lemma_mul_inequality(d - base.amount, d, rate);
        lemma_fundamental_div_mod(quote.amount, rate);
        lemma_mod_bound(quote.amount, rate);
        lemma_mul_is_commutative(rate, d);
        // (d - base) >= 1, so the scaled shortfall is at least the rate
        lemma_mul_inequality(1, d - base.amount, rate);
    }
}

// ---------------------------------------------------------------------------
// Settlement instructions
// ---------------------------------------------------------------------------

/// One outbound instruction of a settlement batch.
#[derive(Debug, PartialEq, Eq)]
pub enum SettlementInstruction {
    /// Invoke the external liquidity venue: swap `offer` into `ask_denom`,
    /// bounded by `max_spread` (a fixed-point ratio in units of 10^-18),
    /// with the proceeds payable to `to`.
    RouteToVenue {
        venue: String,
        offer: AssetAmount,
        ask_denom: String,
        max_spread: u128,
        to: String,
    },
    /// Pay `amount` directly to `to`.
    DirectTransfer { to: String, amount: AssetAmount },
}

/// Mathematical model of a [`SettlementInstruction`].
pub ghost enum SettlementInstructionView {
    RouteToVenue {
        venue: Seq<char>,
        offer: AssetAmountView,
        ask_denom: Seq<char>,
        max_spread: int,
        to: Seq<char>,
    },
    DirectTransfer { to: Seq<char>, amount: AssetAmountView },
}

impl View for SettlementInstruction {
    type V = SettlementInstructionView;

    open spec fn view(&self) -> SettlementInstructionView {
        match self {
            SettlementInstruction::RouteToVenue { venue, offer, ask_denom, max_spread, to } => (
                SettlementInstructionView::RouteToVenue {
                    venue: venue@,
                    offer: offer@,
                    ask_denom: ask_denom@,
                    max_spread: *max_spread as int,
                    to: to@,
                }
            ),
            SettlementInstruction::DirectTransfer { to, amount } => (
                SettlementInstructionView::DirectTransfer { to: to@, amount: amount@ }
            ),
        }
    }
}

impl Clone for SettlementInstruction {
    fn clone(&self) -> (r: SettlementInstruction)
        ensures
            r@ == self@,
    {
        match self {
            SettlementInstruction::RouteToVenue { venue, offer, ask_denom, max_spread, to } => (
                SettlementInstruction::RouteToVenue {
                    venue: venue.clone(),
                    offer: offer.clone(),
                    ask_denom: ask_denom.clone(),
                    max_spread: *max_spread,
                    to: to.clone(),
                }
            ),
            SettlementInstruction::DirectTransfer { to, amount } => (
                SettlementInstruction::DirectTransfer { to: to.clone(), amount: amount.clone() }
            ),
        }
    }
}

/// The views of every element of a sequence.
pub open spec fn seq_views<T: View>(s: Seq<T>) -> Seq<T::V> {
    s.map_values(|t: T| t@)
}

// ---------------------------------------------------------------------------
// Order context
// ---------------------------------------------------------------------------

/// The caller context of an order submission: the caller's identity and
/// the funds custodied with the call. The first attached amount is the
/// caller's offer; an order with no attached funds is invalid.
pub struct OrderInfo {
    pub sender: String,
    pub funds: Vec<AssetAmount>,
}

/// Mathematical model of an [`OrderInfo`].
pub ghost struct OrderInfoView {
    pub sender: Seq<char>,
    pub funds: Seq<AssetAmountView>,
}

impl View for OrderInfo {
    type V = OrderInfoView;

    open spec fn view(&self) -> OrderInfoView {
        OrderInfoView { sender: self.sender@, funds: seq_views(self.funds@) }
    }
}

// ---------------------------------------------------------------------------
// The settlement engine
// ---------------------------------------------------------------------------

/// The whole engine state for the current batch window: the configured
/// address of the external liquidity venue, the pair registry keyed by
/// canonical denomination pair, and the append-only queue of settlement
/// instructions accumulated by matched orders.
pub struct SettlementEngine {
    pub venue_address: String,
    pub pairs: Vec<PairConfiguration>,
    pub messages: Vec<SettlementInstruction>,
}

/// Mathematical model of a [`SettlementEngine`].
pub ghost struct EngineView {
    pub venue: Seq<char>,
    pub pairs: Seq<PairConfigurationView>,
    pub messages: Seq<SettlementInstructionView>,
}

impl View for SettlementEngine {
    type V = EngineView;

    open spec fn view(&self) -> EngineView {
        EngineView {
            venue: self.venue_address@,
            pairs: seq_views(self.pairs@),
            messages: seq_views(self.messages@),
        }
    }
}

/// Engine well-formedness: every registered pair is well-formed, and no
/// two registered pairs share a canonical key.
pub open spec fn engine_wf(s: EngineView) -> bool {
    &&& forall|i: int| 0 <= i < s.pairs.len() ==> pair_wf(#[trigger] s.pairs[i])
    &&& forall|i: int, j: int|
        #![trigger pair_key(s.pairs[i]), pair_key(s.pairs[j])]
        0 <= i < j < s.pairs.len() ==> pair_key(s.pairs[i]) != pair_key(s.pairs[j])
}

/// The registered configuration under canonical key `k`, if any.
pub open spec fn find_pair(
    pairs: Seq<PairConfigurationView>,
    k: (Seq<char>, Seq<char>),
) -> Option<PairConfigurationView>
    decreases pairs.len(),
{
    if pairs.len() == 0 {
        None
    } else if pair_key(pairs[0]) == k {
        Some(pairs[0])
    } else {
        find_pair(pairs.skip(1), k)
    }
}

/// The pair a caller resolves to when supplying denomination `x` and
/// requesting denomination `y`.
pub open spec fn pair_at(s: EngineView, x: Seq<char>, y: Seq<char>) -> Option<
    PairConfigurationView,
> {
    find_pair(s.pairs, canon_key(x, y))
}

/// Canonical lookup symmetry, lifted to the registry: an order supplying
/// `x` and requesting `y` resolves to the same registered pair as a
/// hypothetical swapped order supplying `y` and requesting `x`.
pub proof fn lemma_pair_at_symmetric(s: EngineView, x: Seq<char>, y: Seq<char>)
    ensures
        pair_at(s, x, y) == pair_at(s, y, x),
{
    lemma_canon_key_symmetric(x, y);
}

proof fn lemma_find_pair_at_index(
    pairs: Seq<PairConfigurationView>,
    k: (Seq<char>, Seq<char>),
    i: int,
)
    requires
        0 <= i < pairs.len(),
        pair_key(pairs[i]) == k,
        forall|j: int| 0 <= j < i ==> pair_key(#[trigger] pairs[j]) != k,
    ensures
        find_pair(pairs, k) == Some(pairs[i]),
    decreases i,
{
    if i > 0 {
        assert(forall|j: int| 0 <= j < i - 1 ==> #[trigger] pairs.skip(1)[j] == pairs[j + 1]);
        assert(pairs.skip(1)[i - 1] == pairs[i]);
        lemma_find_pair_at_index(pairs.skip(1), k, i - 1);
    }
}

proof fn lemma_find_pair_none(pairs: Seq<PairConfigurationView>, k: (Seq<char>, Seq<char>))
    requires
        forall|j: int| 0 <= j < pairs.len() ==> pair_key(#[trigger] pairs[j]) != k,
    ensures
        find_pair(pairs, k) is None,
    decreases pairs.len(),
{
    if pairs.len() > 0 {
        assert(forall|j: int|
            0 <= j < pairs.len() - 1 ==> #[trigger] pairs.skip(1)[j] == pairs[j + 1]);
        lemma_find_pair_none(pairs.skip(1), k);
    }
}

/// The registry after storing `p` under its canonical key: an existing
/// configuration with the same key is replaced in place, otherwise `p`
/// is appended.
pub open spec fn upsert_seq(
    pairs: Seq<PairConfigurationView>,
    p: PairConfigurationView,
) -> Seq<PairConfigurationView>
    decreases pairs.len(),
{
    if pairs.len() == 0 {
        seq![p]
    } else if pair_key(pairs[0]) == pair_key(p) {
        seq![p] + pairs.skip(1)
    } else {
        seq![pairs[0]] + upsert_seq(pairs.skip(1), p)
    }
}

proof fn lemma_upsert_replaces(
    pairs: Seq<PairConfigurationView>,
    p: PairConfigurationView,
    i: int,
)
    requires
        0 <= i < pairs.len(),
        pair_key(pairs[i]) == pair_key(p),
        forall|j: int| 0 <= j < i ==> pair_key(#[trigger] pairs[j]) != pair_key(p),
    ensures
        upsert_seq(pairs, p) == pairs.update(i, p),
    decreases i,
{
    if i == 0 {
        assert(upsert_seq(pairs, p) =~= pairs.update(0, p));
    } else {
        assert(forall|j: int| 0 <= j < i - 1 ==> #[trigger] pairs.skip(1)[j] == pairs[j + 1]);
        assert(pairs.skip(1)[i - 1] == pairs[i]);
        lemma_upsert_replaces(pairs.skip(1), p, i - 1);
        assert(upsert_seq(pairs, p) =~= pairs.update(i, p));
    }
}

proof fn lemma_upsert_appends(pairs: Seq<PairConfigurationView>, p: PairConfigurationView)
    requires
        forall|j: int|
            0 <= j < pairs.len() ==> pair_key(#[trigger] pairs[j]) != pair_key(p),
    ensures
        upsert_seq(pairs, p) == pairs.push(p),
    decreases pairs.len(),
{
    if pairs.len() == 0 {
        assert(upsert_seq(pairs, p) =~= pairs.push(p));
    } else {
        assert(forall|j: int|
            0 <= j < pairs.len() - 1 ==> #[trigger] pairs.skip(1)[j] == pairs[j + 1]);
        lemma_upsert_appends(pairs.skip(1), p);
        assert(upsert_seq(pairs, p) =~= pairs.push(p));
    }
}

/// The registry contents after registering every configuration in
/// `assets`, in order, into `pairs`: each is stored with its computed
/// surplus, a later configuration for the same canonical key replacing
/// an earlier one.
pub open spec fn register_pairs(
    pairs: Seq<PairConfigurationView>,
    assets: Seq<PairConfigurationView>,
) -> Seq<PairConfigurationView>
    decreases assets.len(),
{
    if assets.len() == 0 {
        pairs
    } else {
        register_pairs(upsert_seq(pairs, prepared(assets[0])), assets.skip(1))
    }
}

/// Registering one more configuration registers it into the registry
/// obtained so far.
pub proof fn lemma_register_pairs_push(
    pairs: Seq<PairConfigurationView>,
    assets: Seq<PairConfigurationView>,
    a: PairConfigurationView,
)
    ensures
        register_pairs(pairs, assets.push(a)) == upsert_seq(
            register_pairs(pairs, assets),
            prepared(a),
        ),
    decreases assets.len(),
{
    if assets.len() == 0 {
        let s1 = upsert_seq(pairs, prepared(a));
        assert(assets.push(a)[0] == a);
        assert(assets.push(a).skip(1) =~= Seq::<PairConfigurationView>::empty());
        assert(register_pairs(pairs, assets.push(a)) == register_pairs(
            s1,
            assets.push(a).skip(1),
        ));
        assert(register_pairs(s1, assets.push(a).skip(1)) == s1);
        assert(register_pairs(pairs, assets) == pairs);
    } else {
        let s1 = upsert_seq(pairs, prepared(assets[0]));
        assert(assets.push(a)[0] == assets[0]);
        assert(assets.push(a).skip(1) =~= assets.skip(1).push(a));
        assert(register_pairs(pairs, assets.push(a)) == register_pairs(
            s1,
            assets.skip(1).push(a),
        ));
        assert(register_pairs(pairs, assets) == register_pairs(s1, assets.skip(1)));
        lemma_register_pairs_push(s1, assets.skip(1), a);
    }
}

impl SettlementEngine {
    /// Engine well-formedness; see [`engine_wf`].
    pub open spec fn wf(&self) -> bool {
        engine_wf(self@)
    }

    /// The index of the registered pair for the canonical key formed by
    /// denominations `x` and `y`, if any.
    pub fn find_pair_index(&self, x: &String, y: &String) -> (r: Option<usize>)
        ensures
            match r {
                Some(i) => {
                    &&& i < self@.pairs.len()
                    &&& pair_key(self@.pairs[i as int]) == canon_key(x@, y@)
                    &&& forall|j: int|
                        0 <= j < i ==> pair_key(#[trigger] self@.pairs[j]) != canon_key(x@, y@)
                    &&& pair_at(self@, x@, y@) == Some(self@.pairs[i as int])
                },
                None => {
                    &&& forall|j: int|
                        0 <= j < self@.pairs.len() ==> pair_key(#[trigger] self@.pairs[j])
                            != canon_key(x@, y@)
                    &&& pair_at(self@, x@, y@) is None
                },
            },
    {
        let ghost k = canon_key(x@, y@);
        let mut i: usize = 0;
        while i < self.pairs.len()
            invariant
                i <= self.pairs.len(),
                self@.pairs.len() == self.pairs.len(),
                k == canon_key(x@, y@),
                forall|j: int| 0 <= j < i ==> pair_key(#[trigger] self@.pairs[j]) != k,
            decreases self.pairs.len() - i,
        {
            let p = &self.pairs[i];
            let hit = (p.base.denom == *x && p.quote.denom == *y) || (p.base.denom == *y
                && p.quote.denom == *x);
            proof {
                assert(p@ == self@.pairs[i as int]);
                lemma_canon_key_eq(p.base.denom@, p.quote.denom@, x@, y@);
                assert(pair_key(p@) == canon_key(p.base.denom@, p.quote.denom@));
                assert(hit == (pair_key(self@.pairs[i as int]) == k));
            }
            if hit {
                proof {
                    lemma_find_pair_at_index(self@.pairs, k, i as int);
                }
                return Some(i);
            }
            i = i + 1;
        }
        proof {
            lemma_find_pair_none(self@.pairs, k);
        }
        None
    }

    /// Store `p` in the registry under its canonical key, replacing any
    /// configuration already registered under that key.
    pub fn upsert_pair(&mut self, p: PairConfiguration)
        requires
            old(self).wf(),
            pair_wf(p@),
        ensures
            final(self).wf(),
            final(self)@.pairs == upsert_seq(old(self)@.pairs, p@),
            final(self)@.venue == old(self)@.venue,
            final(self)@.messages == old(self)@.messages,
    {
        let found = self.find_pair_index(&p.base.denom, &p.quote.denom);
        proof {
            assert(canon_key(p.base.denom@, p.quote.denom@) == pair_key(p@));
        }
        let ghost before = self@.pairs;
        let ghost pv = p@;
        match found {
            Some(i) => {
                proof {
                    lemma_upsert_replaces(before, pv, i as int);
                }
                self.pairs[i] = p;
                proof {
                    assert(self@.pairs =~= before.update(i as int, pv));
                    assert forall|a: int| 0 <= a < self@.pairs.len() implies pair_wf(
                        #[trigger] self@.pairs[a],
                    ) by {
                        if a != i as int {
                            assert(self@.pairs[a] == before[a]);
                        }
                    }
                    assert forall|a: int, b: int|
                        #![trigger pair_key(self@.pairs[a]), pair_key(self@.pairs[b])]
                        0 <= a < b < self@.pairs.len() implies pair_key(self@.pairs[a])
                        != pair_key(self@.pairs[b]) by {
                        assert(pair_key(self@.pairs[a]) == pair_key(before[a]));
                        assert(pair_key(self@.pairs[b]) == pair_key(before[b]));
                        assert(pair_key(before[a]) != pair_key(before[b]));
                    }
                }
            },
            None => {
                proof {
                    lemma_upsert_appends(before, pv);
                }
                self.pairs.push(p);
                proof {
                    assert(self@.pairs =~= before.push(pv));
                    assert forall|a: int| 0 <= a < self@.pairs.len() implies pair_wf(
                        #[trigger] self@.pairs[a],
                    ) by {
                        if a < before.len() {
                            assert(self@.pairs[a] == before[a]);
                        } else {
                            assert(self@.pairs[a] == pv);
                        }
                    }
                    assert forall|a: int, b: int|
                        #![trigger pair_key(self@.pairs[a]), pair_key(self@.pairs[b])]
                        0 <= a < b < self@.pairs.len() implies pair_key(self@.pairs[a])
                        != pair_key(self@.pairs[b]) by {
                        if b < before.len() {
                            assert(pair_key(before[a]) != pair_key(before[b]));
                        } else {
                            assert(self@.pairs[b] == pv);
                            assert(pair_key(before[a]) != pair_key(pv));
                        }
                    }
                }
            },
        }
    }
}

} // verus!
