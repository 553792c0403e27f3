//! The externally invokable surface: operation payloads and the response
//! carrying outbound settlement instructions.

use vstd::prelude::*;

use crate::state::{seq_views, PairConfiguration, SettlementInstruction, SettlementInstructionView};

verus! {

/// Bootstrap configuration: the address of the external liquidity venue
/// that unmatched surplus is routed to.
pub struct InstantiateMsg {
    pub astroport_address: String,
}

/// The executable operations, consumed in strict temporal order per
/// batch: prepare, then any number of supplies, then settle.
pub enum ExecuteMsg {
    /// Open a batch window: register the given pair configurations and
    /// reset the settlement queue.
    Prepare { assets: Vec<PairConfiguration> },
    /// Submit an order. The caller's custodied funds identify the
    /// supplied asset; `quote` is the requested output denomination.
    Supply { quote: String, slippage_tolerance: u128 },
    /// Close the batch: emit the accumulated settlement instructions.
    Settle {},
}

/// The query surface. No queries are defined; any query is refused.
pub enum QueryMsg {
    /// Placeholder for a query surface that defines no operations.
    Unsupported {},
}

/// The payload returned by an operation: the outbound instructions the
/// host environment is expected to execute.
#[derive(Debug, PartialEq, Eq)]
pub struct Response {
    pub messages: Vec<SettlementInstruction>,
}

impl View for Response {
    type V = Seq<SettlementInstructionView>;

    open spec fn view(&self) -> Seq<SettlementInstructionView> {
        seq_views(self.messages@)
    }
}

impl Default for Response {
    fn default() -> (r: Response)
        ensures
            r@ == Seq::<SettlementInstructionView>::empty(),
    {
        let r = Response { messages: Vec::new() };
        proof {
            assert(r@ =~= Seq::<SettlementInstructionView>::empty());
        }
        r
    }
}

} // verus!
