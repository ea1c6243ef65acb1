use dorium_escrow::exchange::{
    instantiate, query_exchanged, set_tokens, try_exchange, ContractError, InstantiateMsg, State,
};
use dorium_escrow::msg::CosmosMsg;

#[test]
fn proper_initialization() {
    let msg = InstantiateMsg {
        value_token_address: "TREE".to_string(),
        sobz_token_address: "SOBZ".to_string(),
    };
    let state = instantiate(msg);
    assert_eq!("TREE".to_string(), state.value_token_address);

    // it worked, let's query the state
    let value = query_exchanged(&state);
    assert_eq!(0, value.exchanged);
}

#[test]
fn exchange() {
    let msg = InstantiateMsg {
        value_token_address: "TREE".to_string(),
        sobz_token_address: "SOBZ".to_string(),
    };
    let mut state = instantiate(msg);

    let info_sender = "TREE".to_string();
    let msgs = try_exchange(&mut state, &info_sender, "some user".to_string(), 18).unwrap();

    // the exchange told TREE and SOBZ token contracts to burn and mint
    assert_eq!(
        msgs[0],
        CosmosMsg::Cw20Burn {
            contract_addr: "TREE".to_string(),
            amount: 18,
        }
    );
    assert_eq!(
        msgs[1],
        CosmosMsg::Cw20Mint {
            contract_addr: "SOBZ".to_string(),
            recipient: "some user".to_string(),
            amount: 18,
        }
    );

    // the exchange's counter should have increased by the amount
    let value = query_exchanged(&state);
    assert_eq!(18, value.exchanged);
}

#[test]
fn exchange_from_wrong_contract_is_rejected() {
    let mut state = State {
        exchanged: 0,
        value_token_address: "TREE".to_string(),
        sobz_token_address: "SOBZ".to_string(),
    };
    let impostor = "SHRUB".to_string();
    let err = try_exchange(&mut state, &impostor, "some user".to_string(), 18).unwrap_err();
    assert_eq!(
        err,
        ContractError::UnauthorizedValueToken {
            info_sender: "SHRUB".to_string(),
            state_value_token_address: "TREE".to_string(),
        }
    );
    assert_eq!(0, query_exchanged(&state).exchanged);
}

#[test]
fn set_tokens_keeps_the_counter() {
    let mut state = State {
        exchanged: 42,
        value_token_address: "TREE".to_string(),
        sobz_token_address: "SOBZ".to_string(),
    };
    set_tokens(&mut state, "NEWTREE".to_string(), "NEWSOBZ".to_string());
    assert_eq!(state.value_token_address, "NEWTREE".to_string());
    assert_eq!(state.sobz_token_address, "NEWSOBZ".to_string());
    assert_eq!(42, query_exchanged(&state).exchanged);
}
