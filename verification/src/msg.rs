//! Plain request and response data of the settlement engine, and the typed
//! transfer instructions it emits.
//!
//! Wire encoding of these values is a boundary concern outside this crate.

use vstd::prelude::*;

use crate::balance::{AssetEntry, Coin, Cw20Coin};
use crate::state::Status;

verus! {

/// Request to create an escrow.
#[derive(Clone, Debug, PartialEq)]
pub struct CreateMsg {
    /// Id of the escrow, its store key.
    pub id: String,
    /// URL with more context.
    pub url: String,
    /// Free-form description.
    pub description: String,
    /// Addresses that may decide settlement.
    pub validators: Vec<String>,
    /// Address that receives the funds on approval.
    pub proposer: String,
    /// Informational only: the engine records the actual sender as source.
    pub source: String,
    /// Tokenized assets to accept as top-up funding, if any.
    pub cw20_whitelist: Option<Vec<String>>,
}

/// Model of a [`CreateMsg`].
#[verifier::ext_equal]
pub struct CreateMsgView {
    pub id: Seq<char>,
    pub url: Seq<char>,
    pub description: Seq<char>,
    pub validators: Seq<Seq<char>>,
    pub proposer: Seq<char>,
    pub source: Seq<char>,
    pub whitelist: Option<Seq<Seq<char>>>,
}

impl View for CreateMsg {
    type V = CreateMsgView;

    open spec fn view(&self) -> CreateMsgView {
        CreateMsgView {
            id: self.id@,
            url: self.url@,
            description: self.description@,
            validators: self.validators@.map_values(|s: String| s@),
            proposer: self.proposer@,
            source: self.source@,
            whitelist: match self.cw20_whitelist {
                Some(w) => Some(w@.map_values(|s: String| s@)),
                None => None,
            },
        }
    }
}

/// Read-only queries over the store.
#[derive(Debug, PartialEq)]
pub enum QueryMsg {
    /// All escrow ids, in ascending byte order.
    List {},
    /// Details of every escrow, in the same order.
    ListDetailed {},
    /// Details of one escrow.
    Details { id: String },
}

/// Everything recorded about one escrow.
#[derive(Debug, PartialEq)]
pub struct DetailsResponse {
    pub id: String,
    pub url: String,
    pub description: String,
    pub validators: Vec<String>,
    pub proposer: String,
    pub source: String,
    pub native_balance: Vec<Coin>,
    pub cw20_balance: Vec<Cw20Coin>,
    pub cw20_whitelist: Vec<String>,
    pub status: Status,
}

/// Model of a [`DetailsResponse`].
#[verifier::ext_equal]
pub struct DetailsView {
    pub id: Seq<char>,
    pub url: Seq<char>,
    pub description: Seq<char>,
    pub validators: Seq<Seq<char>>,
    pub proposer: Seq<char>,
    pub source: Seq<char>,
    pub native_balance: Seq<AssetEntry>,
    pub cw20_balance: Seq<AssetEntry>,
    pub cw20_whitelist: Seq<Seq<char>>,
    pub status: Status,
}

impl View for DetailsResponse {
    type V = DetailsView;

    open spec fn view(&self) -> DetailsView {
        DetailsView {
            id: self.id@,
            url: self.url@,
            description: self.description@,
            validators: self.validators@.map_values(|s: String| s@),
            proposer: self.proposer@,
            source: self.source@,
            native_balance: self.native_balance@.map_values(|c: Coin| c@),
            cw20_balance: self.cw20_balance@.map_values(|c: Cw20Coin| c@),
            cw20_whitelist: self.cw20_whitelist@.map_values(|s: String| s@),
            status: self.status,
        }
    }
}

/// All escrow ids.
#[derive(Debug, PartialEq)]
pub struct ListResponse {
    pub escrows: Vec<String>,
}

/// Details of all escrows.
#[derive(Debug, PartialEq)]
pub struct ListDetailedResponse {
    pub escrows: Vec<DetailsResponse>,
}

/// A transfer instruction the engine emits towards the external asset
/// ledger. The engine only constructs these; it does not execute them.
#[derive(Debug, PartialEq)]
pub enum CosmosMsg {
    /// Move native coins to an address, batched over denominations.
    BankSend { to_address: String, amount: Vec<Coin> },
    /// Tell a token contract to move an amount to a recipient.
    Cw20Transfer { contract_addr: String, recipient: String, amount: u128 },
    /// Tell a token contract to destroy an amount.
    Cw20Burn { contract_addr: String, amount: u128 },
    /// Tell a token contract to create an amount for a recipient.
    Cw20Mint { contract_addr: String, recipient: String, amount: u128 },
}

/// Model of a [`CosmosMsg`].
#[verifier::ext_equal]
pub enum CosmosMsgView {
    BankSend { to: Seq<char>, amount: Seq<AssetEntry> },
    Cw20Transfer { contract: Seq<char>, recipient: Seq<char>, amount: nat },
    Cw20Burn { contract: Seq<char>, amount: nat },
    Cw20Mint { contract: Seq<char>, recipient: Seq<char>, amount: nat },
}

impl View for CosmosMsg {
    type V = CosmosMsgView;

    open spec fn view(&self) -> CosmosMsgView {
        match self {
            CosmosMsg::BankSend { to_address, amount } => CosmosMsgView::BankSend {
                to: to_address@,
                amount: amount@.map_values(|c: Coin| c@),
            },
            CosmosMsg::Cw20Transfer { contract_addr, recipient, amount } => (
            CosmosMsgView::Cw20Transfer {
                contract: contract_addr@,
                recipient: recipient@,
                amount: *amount as nat,
            }),
            CosmosMsg::Cw20Burn { contract_addr, amount } => CosmosMsgView::Cw20Burn {
                contract: contract_addr@,
                amount: *amount as nat,
            },
            CosmosMsg::Cw20Mint { contract_addr, recipient, amount } => (
            CosmosMsgView::Cw20Mint {
                contract: contract_addr@,
                recipient: recipient@,
                amount: *amount as nat,
            }),
        }
    }
}

} // verus!
