use cow_settlement::contract::{deposit, execute, instantiate, query, settle};
use cow_settlement::msg::{ExecuteMsg, InstantiateMsg, QueryMsg};
use cow_settlement::state::{
    AssetAmount, OrderInfo, PairConfiguration, SettlementEngine, SettlementInstruction,
};
use cow_settlement::ContractError;

fn coin(amount: u128, denom: &str) -> AssetAmount {
    AssetAmount { denom: denom.to_string(), amount }
}

fn order_info(sender: &str, funds: Vec<AssetAmount>) -> OrderInfo {
    OrderInfo { sender: sender.to_string(), funds }
}

fn fresh_engine() -> SettlementEngine {
    instantiate(InstantiateMsg { astroport_address: "astroport".to_string() })
}

fn register(
    engine: &mut SettlementEngine,
    pairs: Vec<PairConfiguration>,
) -> Result<cow_settlement::msg::Response, ContractError> {
    cow_settlement::contract::prepare(engine, pairs)
}

// 0.04, 0.015, 0.02 and 0.01 as fixed-point ratios in units of 10^-18
const SPREAD_004: u128 = 40_000_000_000_000_000;
const SPREAD_002: u128 = 20_000_000_000_000_000;
const SPREAD_0015: u128 = 15_000_000_000_000_000;
const SPREAD_001: u128 = 10_000_000_000_000_000;

#[test]
fn init() {
    let astroport_address = "astroport".to_string();
    let msg = InstantiateMsg { astroport_address };
    let engine = instantiate(msg);
    assert_eq!(engine.venue_address, "astroport");
    assert!(engine.pairs.is_empty());
    assert!(engine.messages.is_empty());
}

#[test]
fn prepare() {
    let astroport_address = "astroport".to_string();
    let msg = InstantiateMsg { astroport_address };
    let _engine = instantiate(msg);
}

#[test]
fn supply() {
    let mut engine = fresh_engine();

    let pair_configuration = PairConfiguration {
        base: coin(500_000, "ETH"),
        quote: coin(100_000, "ATOM"),
        surplus: None,
        exchange_rate: 3,
    };

    let _res = register(&mut engine, vec![pair_configuration]);

    let info = order_info("user_1", vec![coin(200_000, "ETH")]);
    let _res = deposit(&mut engine, &info, "ATOM".to_owned(), SPREAD_004);

    let info = order_info("user_2", vec![coin(300_000, "ETH")]);
    let _res = deposit(&mut engine, &info, "ATOM".to_owned(), SPREAD_004);

    let info = order_info("user_3", vec![coin(40_000, "ATOM")]);
    let _res = deposit(&mut engine, &info, "ETH".to_owned(), SPREAD_004);

    let info = order_info("user_4", vec![coin(30_000, "ATOM")]);
    let _res = deposit(&mut engine, &info, "ETH".to_owned(), SPREAD_004);

    let info = order_info("user_4", vec![coin(30_000, "ATOM")]);
    let _res = deposit(&mut engine, &info, "ETH".to_owned(), SPREAD_004);

    let msgs = settle(&engine).messages;
    assert_eq!(msgs.len(), 7);
}

#[test]
fn complete_single_pair() {
    let mut engine = fresh_engine();

    let base_supply: u128 = 0;
    let quote_supply: u128 = 0;
    let price: u128 = 250_000_000;

    // we use the smallest denomination of each coin, microatom for ATOM and wei for ETH
    let users: Vec<(&str, AssetAmount, u128)> = vec![
        ("user_a", coin(2_000_000_000_000_000_000, "ETH"), SPREAD_002),
        ("user_b", coin(2_000_000_000_000_000_000, "ETH"), SPREAD_0015),
        ("user_c", coin(5_000_000_000_000_000_000, "ETH"), SPREAD_001),
        ("user_d", coin(100_000_000, "ATOM"), SPREAD_0015),
        ("user_e", coin(300_000_000, "ATOM"), SPREAD_0015),
        ("user_f", coin(450_000_000, "ATOM"), SPREAD_0015),
        ("user_g", coin(600_000_000, "ATOM"), SPREAD_001),
    ];

    let pair_config = PairConfiguration {
        base: AssetAmount { denom: "ETH".into(), amount: base_supply },
        quote: AssetAmount { denom: "ATOM".into(), amount: quote_supply },
        surplus: None,
        exchange_rate: price,
    };

    // initialise the batch settlement
    let solver = order_info("solver", vec![]);
    let prepare_msg = ExecuteMsg::Prepare { assets: vec![pair_config] };
    let _ = execute(&mut engine, &solver, prepare_msg);

    // the orders attach no funds, so each one is refused
    for (address, _supply, slippage_tolerance) in &users {
        let info = order_info(address, vec![]);
        let supply_msg =
            ExecuteMsg::Supply { quote: "ETH".into(), slippage_tolerance: *slippage_tolerance };
        let res = execute(&mut engine, &info, supply_msg);
        assert_eq!(res, Err(ContractError::InvalidOrder));
    }

    let settle_msg = ExecuteMsg::Settle {};
    let resp = execute(&mut engine, &solver, settle_msg).unwrap();
    assert!(resp.messages.is_empty());
}

#[test]
fn base_surplus_order_is_split() {
    // base 500000 ETH, quote 100000 ATOM, rate 3 (quote per base):
    // base demand = 100000 / 3 = 33333 (floor), so the base side carries a
    // surplus of 500000 - 33333 = 466667 ETH.
    let mut engine = fresh_engine();
    let pair = PairConfiguration {
        base: coin(500_000, "ETH"),
        quote: coin(100_000, "ATOM"),
        surplus: None,
        exchange_rate: 3,
    };
    register(&mut engine, vec![pair]).unwrap();

    assert_eq!(engine.pairs.len(), 1);
    assert_eq!(engine.pairs[0].surplus, Some(coin(466_667, "ETH")));

    // 200000 ETH supplied: the routed share is
    // 200000 * 466667 / 500000 = 186666 (floor); the remaining 13334 ETH
    // clears at rate 3 into 40002 ATOM.
    let info = order_info("user_1", vec![coin(200_000, "ETH")]);
    let res = deposit(&mut engine, &info, "ATOM".to_string(), SPREAD_004);
    assert!(res.is_ok());

    let msgs = settle(&engine).messages;
    assert_eq!(msgs.len(), 2);
    assert_eq!(
        msgs[0],
        SettlementInstruction::RouteToVenue {
            venue: "astroport".to_string(),
            offer: coin(186_666, "ETH"),
            ask_denom: "ATOM".to_string(),
            max_spread: SPREAD_004,
            to: "user_1".to_string(),
        }
    );
    assert_eq!(
        msgs[1],
        SettlementInstruction::DirectTransfer {
            to: "user_1".to_string(),
            amount: coin(40_002, "ATOM"),
        }
    );
}

#[test]
fn matched_side_gets_no_route() {
    // The surplus sits on the base (ETH) side; an ATOM supplier is on the
    // matched side and receives a single direct transfer.
    let mut engine = fresh_engine();
    let pair = PairConfiguration {
        base: coin(500_000, "ETH"),
        quote: coin(100_000, "ATOM"),
        surplus: None,
        exchange_rate: 3,
    };
    register(&mut engine, vec![pair]).unwrap();

    let info = order_info("user_3", vec![coin(40_000, "ATOM")]);
    deposit(&mut engine, &info, "ETH".to_string(), SPREAD_004).unwrap();

    let msgs = settle(&engine).messages;
    assert_eq!(msgs.len(), 1);
    assert_eq!(
        msgs[0],
        SettlementInstruction::DirectTransfer {
            to: "user_3".to_string(),
            // 40000 ATOM / rate 3 = 13333 ETH (floor)
            amount: coin(13_333, "ETH"),
        }
    );
}

#[test]
fn quote_surplus_order_is_split() {
    // base 10000 ETH, quote 100000 ATOM, rate 3: base demand 33333 exceeds
    // the declared base, so the shortfall of 23333 ETH scales back into a
    // quote-side surplus of 69999 ATOM.
    let mut engine = fresh_engine();
    let pair = PairConfiguration {
        base: coin(10_000, "ETH"),
        quote: coin(100_000, "ATOM"),
        surplus: None,
        exchange_rate: 3,
    };
    register(&mut engine, vec![pair]).unwrap();
    assert_eq!(engine.pairs[0].surplus, Some(coin(69_999, "ATOM")));

    // 50000 ATOM supplied: routed share 50000 * 69999 / 100000 = 34999
    // (floor); the remaining 15001 ATOM clears into 5000 ETH (floor).
    let info = order_info("user_1", vec![coin(50_000, "ATOM")]);
    deposit(&mut engine, &info, "ETH".to_string(), SPREAD_001).unwrap();

    let msgs = settle(&engine).messages;
    assert_eq!(msgs.len(), 2);
    assert_eq!(
        msgs[0],
        SettlementInstruction::RouteToVenue {
            venue: "astroport".to_string(),
            offer: coin(34_999, "ATOM"),
            ask_denom: "ETH".to_string(),
            max_spread: SPREAD_001,
            to: "user_1".to_string(),
        }
    );
    assert_eq!(
        msgs[1],
        SettlementInstruction::DirectTransfer {
            to: "user_1".to_string(),
            amount: coin(5_000, "ETH"),
        }
    );
}

#[test]
fn exact_clearing_has_no_surplus() {
    // base 33333 ETH equals the base demand 100000 / 3, so the two sides
    // clear exactly and no routing happens on either side.
    let mut engine = fresh_engine();
    let pair = PairConfiguration {
        base: coin(33_333, "ETH"),
        quote: coin(100_000, "ATOM"),
        surplus: None,
        exchange_rate: 3,
    };
    register(&mut engine, vec![pair]).unwrap();
    assert_eq!(engine.pairs[0].surplus, None);

    let info = order_info("user_1", vec![coin(9_999, "ETH")]);
    deposit(&mut engine, &info, "ATOM".to_string(), SPREAD_001).unwrap();
    let msgs = settle(&engine).messages;
    assert_eq!(msgs.len(), 1);
    assert_eq!(
        msgs[0],
        SettlementInstruction::DirectTransfer {
            to: "user_1".to_string(),
            amount: coin(29_997, "ATOM"),
        }
    );
}

#[test]
fn lookup_is_order_independent() {
    // A pair registered as (base ETH, quote ATOM) serves both an order
    // supplying ETH and an order supplying ATOM.
    let mut engine = fresh_engine();
    let pair = PairConfiguration {
        base: coin(33_333, "ETH"),
        quote: coin(100_000, "ATOM"),
        surplus: None,
        exchange_rate: 3,
    };
    register(&mut engine, vec![pair]).unwrap();

    let info = order_info("user_1", vec![coin(300, "ETH")]);
    assert!(deposit(&mut engine, &info, "ATOM".to_string(), SPREAD_001).is_ok());
    let info = order_info("user_2", vec![coin(300, "ATOM")]);
    assert!(deposit(&mut engine, &info, "ETH".to_string(), SPREAD_001).is_ok());
}

#[test]
fn reregistering_a_pair_overwrites_it() {
    let mut engine = fresh_engine();
    let first = PairConfiguration {
        base: coin(500_000, "ETH"),
        quote: coin(100_000, "ATOM"),
        surplus: None,
        exchange_rate: 3,
    };
    register(&mut engine, vec![first]).unwrap();
    // the same unordered pair, declared the other way round
    let second = PairConfiguration {
        base: coin(100_000, "ATOM"),
        quote: coin(500_000, "ETH"),
        surplus: None,
        exchange_rate: 5,
    };
    register(&mut engine, vec![second]).unwrap();
    assert_eq!(engine.pairs.len(), 1);
    assert_eq!(engine.pairs[0].exchange_rate, 5);
    assert_eq!(engine.pairs[0].base.denom, "ATOM");
}

#[test]
fn deposit_without_funds_is_invalid() {
    let mut engine = fresh_engine();
    let pair = PairConfiguration {
        base: coin(500_000, "ETH"),
        quote: coin(100_000, "ATOM"),
        surplus: None,
        exchange_rate: 3,
    };
    register(&mut engine, vec![pair]).unwrap();

    let info = order_info("user_1", vec![]);
    let res = deposit(&mut engine, &info, "ATOM".to_string(), SPREAD_004);
    assert_eq!(res, Err(ContractError::InvalidOrder));
    assert!(settle(&engine).messages.is_empty());
}

#[test]
fn deposit_for_unregistered_pair_is_invalid() {
    let mut engine = fresh_engine();
    let pair = PairConfiguration {
        base: coin(500_000, "ETH"),
        quote: coin(100_000, "ATOM"),
        surplus: None,
        exchange_rate: 3,
    };
    register(&mut engine, vec![pair]).unwrap();

    // funds are attached, but no pair covers (OSMO, ATOM)
    let info = order_info("user_1", vec![coin(1_000, "OSMO")]);
    let res = deposit(&mut engine, &info, "ATOM".to_string(), SPREAD_004);
    assert_eq!(res, Err(ContractError::InvalidOrder));
    assert_eq!(engine.pairs.len(), 1);
    assert!(settle(&engine).messages.is_empty());
}

#[test]
fn settle_twice_returns_the_same_batch() {
    let mut engine = fresh_engine();
    let pair = PairConfiguration {
        base: coin(500_000, "ETH"),
        quote: coin(100_000, "ATOM"),
        surplus: None,
        exchange_rate: 3,
    };
    register(&mut engine, vec![pair]).unwrap();
    let info = order_info("user_1", vec![coin(200_000, "ETH")]);
    deposit(&mut engine, &info, "ATOM".to_string(), SPREAD_004).unwrap();

    let first = settle(&engine);
    let second = settle(&engine);
    assert_eq!(first, second);
    assert_eq!(first.messages.len(), 2);
}

#[test]
fn preparing_resets_the_batch() {
    let mut engine = fresh_engine();
    let pair = PairConfiguration {
        base: coin(500_000, "ETH"),
        quote: coin(100_000, "ATOM"),
        surplus: None,
        exchange_rate: 3,
    };
    register(&mut engine, vec![pair]).unwrap();
    let info = order_info("user_1", vec![coin(200_000, "ETH")]);
    deposit(&mut engine, &info, "ATOM".to_string(), SPREAD_004).unwrap();
    assert_eq!(settle(&engine).messages.len(), 2);

    let pair = PairConfiguration {
        base: coin(500_000, "ETH"),
        quote: coin(100_000, "ATOM"),
        surplus: None,
        exchange_rate: 3,
    };
    register(&mut engine, vec![pair]).unwrap();
    assert!(settle(&engine).messages.is_empty());
}

#[test]
fn queries_are_unsupported() {
    let res = query(QueryMsg::Unsupported {});
    assert_eq!(res, Err(ContractError::UnsupportedQuery));
}
