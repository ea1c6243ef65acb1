//! The token exchange: swaps one tokenized asset for another, one for one,
//! and keeps a running counter of everything exchanged.
//!
//! On a swap the exchange burns the received value tokens and mints the same
//! amount of the counterpart token to the user who sent them. Only the value
//! token contract itself may trigger a swap.

use vstd::prelude::*;

use crate::msg::{CosmosMsg, CosmosMsgView};

verus! {

/// The exchange's persistent state.
#[derive(Debug)]
pub struct State {
    /// Total amount of value tokens exchanged so far.
    pub exchanged: u128,
    /// The token contract whose tokens are accepted and burned.
    pub value_token_address: String,
    /// The token contract that mints the counterpart.
    pub sobz_token_address: String,
}

/// Model of the exchange [`State`].
#[verifier::ext_equal]
pub struct StateView {
    pub exchanged: nat,
    pub value_token_address: Seq<char>,
    pub sobz_token_address: Seq<char>,
}

impl View for State {
    type V = StateView;

    open spec fn view(&self) -> StateView {
        StateView {
            exchanged: self.exchanged as nat,
            value_token_address: self.value_token_address@,
            sobz_token_address: self.sobz_token_address@,
        }
    }
}

/// Failures of the exchange.
#[derive(Debug, PartialEq)]
pub enum ContractError {
    /// A swap arrived from a contract other than the value token contract.
    UnauthorizedValueToken { info_sender: String, state_value_token_address: String },
    /// A caller other than the owner tried to change the token addresses.
    UnauthorizedSetToken { owner: String, sender: String },
}

/// Setup request: the two token contract addresses.
#[derive(Debug)]
pub struct InstantiateMsg {
    pub value_token_address: String,
    pub sobz_token_address: String,
}

/// What a tokenized transfer into the exchange may ask for.
#[derive(Debug)]
pub enum ReceiveMsg {
    /// Swap the transferred amount.
    Send {},
}

/// Read-only queries over the exchange state.
#[derive(Debug)]
pub enum QueryMsg {
    /// The running total of exchanged value tokens.
    GetExchanged {},
}

/// Answer to [`QueryMsg::GetExchanged`].
#[derive(Debug, PartialEq)]
pub struct ExchangedResponse {
    pub exchanged: u128,
}

/// A fresh exchange: nothing exchanged yet, tokens as given.
pub fn instantiate(msg: InstantiateMsg) -> (s: State)
    ensures
        s@.exchanged == 0,
        s@.value_token_address == msg.value_token_address@,
        s@.sobz_token_address == msg.sobz_token_address@,
{
    State {
        exchanged: 0,
        value_token_address: msg.value_token_address,
        sobz_token_address: msg.sobz_token_address,
    }
}

/// Swap: accepts the transfer only from the value token contract, then
/// instructs it to burn the amount, instructs the counterpart contract to
/// mint the same amount to the user, and adds the amount to the counter.
pub fn try_exchange(state: &mut State, info_sender: &String, user: String, amount: u128) -> (r:
    Result<Vec<CosmosMsg>, ContractError>)
    requires
        old(state)@.exchanged + amount <= u128::MAX,
    ensures
        match r {
            Ok(msgs) => {
                &&& info_sender@ == old(state)@.value_token_address
                &&& final(state)@ == (StateView {
                    exchanged: (old(state)@.exchanged + amount) as nat,
                    ..old(state)@
                })
                &&& msgs@.map_values(|m: CosmosMsg| m@) == seq![
                    CosmosMsgView::Cw20Burn {
                        contract: old(state)@.value_token_address,
                        amount: amount as nat,
                    },
                    CosmosMsgView::Cw20Mint {
                        contract: old(state)@.sobz_token_address,
                        recipient: user@,
                        amount: amount as nat,
                    },
                ]
            },
            Err(e) => {
                &&& info_sender@ != old(state)@.value_token_address
                &&& *final(state) == *old(state)
                &&& match e {
                    ContractError::UnauthorizedValueToken {
                        info_sender: a,
                        state_value_token_address: b,
                    } => a@ == info_sender@ && b@ == old(state)@.value_token_address,
                    _ => false,
                }
            },
        },
{
    if !(*info_sender == state.value_token_address) {
        return Err(
            ContractError::UnauthorizedValueToken {
                info_sender: info_sender.clone(),
                state_value_token_address: state.value_token_address.clone(),
            },
        );
    }
    let burn = CosmosMsg::Cw20Burn { contract_addr: state.value_token_address.clone(), amount };
    let mint = CosmosMsg::Cw20Mint {
        contract_addr: state.sobz_token_address.clone(),
        recipient: user,
        amount,
    };
    let mut msgs: Vec<CosmosMsg> = Vec::new();
    msgs.push(burn);
    msgs.push(mint);
    state.exchanged = state.exchanged + amount;
    proof {
        assert(msgs@.map_values(|m: CosmosMsg| m@) =~= seq![
            CosmosMsgView::Cw20Burn {
                contract: old(state)@.value_token_address,
                amount: amount as nat,
            },
            CosmosMsgView::Cw20Mint {
                contract: old(state)@.sobz_token_address,
                recipient: user@,
                amount: amount as nat,
            },
        ]);
        assert(state@ =~= (StateView {
            exchanged: (old(state)@.exchanged + amount) as nat,
            ..old(state)@
        }));
    }
    Ok(msgs)
}

/// Point the exchange at other token contracts; the counter stays.
pub fn set_tokens(state: &mut State, value_token_address: String, sobz_token_address: String)
    ensures
        final(state)@.value_token_address == value_token_address@,
        final(state)@.sobz_token_address == sobz_token_address@,
        final(state)@.exchanged == old(state)@.exchanged,
{
    state.value_token_address = value_token_address;
    state.sobz_token_address = sobz_token_address;
}

/// The running total of exchanged value tokens.
pub fn query_exchanged(state: &State) -> (r: ExchangedResponse)
    ensures
        r.exchanged == state.exchanged,
{
    ExchangedResponse { exchanged: state.exchanged }
}

} // verus!
