use dorium_escrow::balance::{Balance, Coin, Cw20Coin};
use dorium_escrow::contract::{
    execute_approve, execute_create, execute_refund, execute_top_up, query_details, query_list,
    query_list_detailed,
};
use dorium_escrow::error::ContractError;
use dorium_escrow::msg::{CosmosMsg, CreateMsg, DetailsResponse};
use dorium_escrow::state::{EscrowStore, Status};

fn coin(amount: u128, denom: &str) -> Coin {
    Coin { denom: denom.to_string(), amount }
}

fn coins(amount: u128, denom: &str) -> Vec<Coin> {
    vec![coin(amount, denom)]
}

fn quick_create_msg_cw20() -> (CreateMsg, Balance, String) {
    let create = CreateMsg {
        id: "foobar".to_string(),
        url: "https://darmstadt.dorium.apeunit.com".to_string(),
        description: "foo to a bar".to_string(),
        validators: vec!["validator1".to_string(), "validator2".to_string()],
        proposer: "recd".to_string(),
        source: "dorium".to_string(),
        cw20_whitelist: Some(vec!["other-token".to_string()]),
    };
    let balance = Balance::Cw20(Cw20Coin {
        address: "my-cw20-token".to_string(),
        amount: 100,
    });
    (create, balance, "dorium".to_string())
}

#[test]
fn approve_proposal_native_token() {
    let mut store = EscrowStore::new();

    // create an escrow
    let create = CreateMsg {
        id: "foobar".to_string(),
        url: "https://darmstadt.dorium.apeunit.com".to_string(),
        description: "foo of a bar of a escrow".to_string(),
        validators: vec!["validator1".to_string(), "validator2".to_string()],
        proposer: "recd".to_string(),
        source: "dorium".to_string(),
        cw20_whitelist: None,
    };
    let sender = "dorium".to_string();
    let balance = coins(100, "tokens");
    let res = execute_create(
        &mut store,
        create.clone(),
        Balance::Native(balance),
        &sender,
    );
    assert!(res.is_ok());

    // ensure the details are what we expect
    let details = query_details(&store, &"foobar".to_string()).unwrap();
    assert_eq!(
        details,
        DetailsResponse {
            id: "foobar".to_string(),
            url: "https://darmstadt.dorium.apeunit.com".to_string(),
            description: "foo of a bar of a escrow".to_string(),
            validators: vec!["validator1".to_string(), "validator2".to_string()],
            proposer: "recd".to_string(),
            source: "dorium".to_string(),
            native_balance: coins(100, "tokens"),
            cw20_balance: vec![],
            cw20_whitelist: vec![],
            status: Status::Opened,
        }
    );

    // approve it
    let msgs = execute_approve(&mut store, &create.validators[0], &create.id).unwrap();
    assert_eq!(1, msgs.len());
    assert_eq!(
        msgs[0],
        CosmosMsg::BankSend {
            to_address: create.proposer.clone(),
            amount: coins(100, "tokens"),
        }
    );
}

#[test]
fn approve_proposal_cw20_token() {
    let mut store = EscrowStore::new();

    let (create, balance, sender) = quick_create_msg_cw20();
    let res = execute_create(&mut store, create.clone(), balance, &sender);
    assert!(res.is_ok());

    // ensure the whitelist is what we expect
    let details = query_details(&store, &"foobar".to_string()).unwrap();
    assert_eq!(
        details,
        DetailsResponse {
            id: "foobar".to_string(),
            url: "https://darmstadt.dorium.apeunit.com".to_string(),
            description: "foo to a bar".to_string(),
            validators: vec!["validator1".to_string(), "validator2".to_string()],
            proposer: "recd".to_string(),
            source: "dorium".to_string(),
            native_balance: vec![],
            cw20_balance: vec![Cw20Coin {
                address: "my-cw20-token".to_string(),
                amount: 100,
            }],
            cw20_whitelist: vec!["other-token".to_string(), "my-cw20-token".to_string()],
            status: Status::Opened,
        }
    );

    // approve it
    let msgs = execute_approve(&mut store, &create.validators[0], &create.id).unwrap();
    assert_eq!(1, msgs.len());
    assert_eq!(
        msgs[0],
        CosmosMsg::Cw20Transfer {
            contract_addr: "my-cw20-token".to_string(),
            recipient: create.proposer.clone(),
            amount: 100,
        }
    );
}

#[test]
fn reject_proposal_cw20_token() {
    let mut store = EscrowStore::new();

    let (create, balance, sender) = quick_create_msg_cw20();
    let res = execute_create(&mut store, create.clone(), balance, &sender);
    assert!(res.is_ok());

    // reject it: the escrow contract tells the token contract to burn
    let msgs = execute_refund(&mut store, &create.validators[0], &create.id).unwrap();
    assert_eq!(1, msgs.len());
    assert_eq!(
        msgs[0],
        CosmosMsg::Cw20Burn {
            contract_addr: "my-cw20-token".to_string(),
            amount: 100,
        }
    );
}

#[test]
fn top_up_mixed_tokens() {
    let mut store = EscrowStore::new();

    // only accept these tokens
    let whitelist = vec!["bar_token".to_string(), "foo_token".to_string()];

    // create an escrow with 2 native tokens
    let create = CreateMsg {
        id: "foobar".to_string(),
        url: "https://darmstadt.dorium.apeunit.com".to_string(),
        description: "foo to a bar".to_string(),
        validators: vec!["validator1".to_string(), "validator2".to_string()],
        proposer: "recd".to_string(),
        source: "dorium".to_string(),
        cw20_whitelist: Some(whitelist),
    };
    let sender = "source".to_string();
    let balance = vec![coin(100, "fee"), coin(200, "stake")];
    let res = execute_create(&mut store, create.clone(), Balance::Native(balance), &sender);
    assert!(res.is_ok());

    // top it up with 2 more native tokens
    let extra_native = vec![coin(250, "random"), coin(300, "stake")];
    let res = execute_top_up(&mut store, create.id.clone(), Balance::Native(extra_native));
    assert!(res.is_ok());

    // top up with one foreign token
    let res = execute_top_up(
        &mut store,
        create.id.clone(),
        Balance::Cw20(Cw20Coin {
            address: "bar_token".to_string(),
            amount: 7890,
        }),
    );
    assert!(res.is_ok());

    // top up with a foreign token not on the whitelist
    let err = execute_top_up(
        &mut store,
        create.id.clone(),
        Balance::Cw20(Cw20Coin {
            address: "baz_token".to_string(),
            amount: 7890,
        }),
    )
    .unwrap_err();
    assert_eq!(err, ContractError::NotInWhitelist);

    // top up with the second foreign token
    let res = execute_top_up(
        &mut store,
        create.id.clone(),
        Balance::Cw20(Cw20Coin {
            address: "foo_token".to_string(),
            amount: 888,
        }),
    );
    assert!(res.is_ok());

    // approve it
    let msgs = execute_approve(&mut store, &create.validators[0], &create.id).unwrap();
    assert_eq!(3, msgs.len());

    // first message releases all native coins
    assert_eq!(
        msgs[0],
        CosmosMsg::BankSend {
            to_address: create.proposer.clone(),
            amount: vec![coin(100, "fee"), coin(500, "stake"), coin(250, "random")],
        }
    );

    // second one releases the bar token
    assert_eq!(
        msgs[1],
        CosmosMsg::Cw20Transfer {
            contract_addr: "bar_token".to_string(),
            recipient: create.proposer.clone(),
            amount: 7890,
        }
    );

    // third one releases the foo token
    assert_eq!(
        msgs[2],
        CosmosMsg::Cw20Transfer {
            contract_addr: "foo_token".to_string(),
            recipient: create.proposer.clone(),
            amount: 888,
        }
    );
}

#[test]
fn approved_proposal_is_locked() {
    // quickly create a proposal, funding it with tokenized assets
    let mut store = EscrowStore::new();
    let (create, balance, sender) = quick_create_msg_cw20();
    execute_create(&mut store, create.clone(), balance, &sender).unwrap();

    // approve it
    execute_approve(&mut store, &create.validators[0], &create.id).unwrap();

    // now that it's approved, topping up with further tokens fails (locked)
    let top_up = Balance::Cw20(Cw20Coin {
        address: "my-cw20-token".to_string(),
        amount: 7890,
    });
    let err = execute_top_up(&mut store, create.id.clone(), top_up).unwrap_err();
    assert!(matches!(err, ContractError::Locked));

    // now that it's approved, you can't approve again
    let err = execute_approve(&mut store, &create.validators[0], &create.id).unwrap_err();
    assert!(matches!(err, ContractError::Locked));

    // now that it's approved, you can't reject
    let err = execute_refund(&mut store, &create.validators[0], &create.id).unwrap_err();
    assert!(matches!(err, ContractError::Locked));
}

#[test]
fn rejected_proposal_is_locked() {
    // quickly create a proposal, funding it with tokenized assets
    let mut store = EscrowStore::new();
    let (create, balance, sender) = quick_create_msg_cw20();
    execute_create(&mut store, create.clone(), balance, &sender).unwrap();

    // reject it
    execute_refund(&mut store, &create.validators[0], &create.id).unwrap();

    // now that it's rejected, topping up with further tokens fails (locked)
    let top_up = Balance::Cw20(Cw20Coin {
        address: "my-cw20-token".to_string(),
        amount: 7890,
    });
    let err = execute_top_up(&mut store, create.id.clone(), top_up).unwrap_err();
    assert!(matches!(err, ContractError::Locked));

    // now that it's rejected, you can't approve
    let err = execute_approve(&mut store, &create.validators[0], &create.id).unwrap_err();
    assert!(matches!(err, ContractError::Locked));

    // now that it's rejected, you can't reject again
    let err = execute_refund(&mut store, &create.validators[0], &create.id).unwrap_err();
    assert!(matches!(err, ContractError::Locked));
}

#[test]
fn create_twice_fails_already_in_use() {
    let mut store = EscrowStore::new();
    let (create, balance, sender) = quick_create_msg_cw20();
    execute_create(&mut store, create.clone(), balance, &sender).unwrap();

    let second_balance = Balance::Native(coins(50, "tokens"));
    let err = execute_create(&mut store, create.clone(), second_balance, &sender)
        .unwrap_err();
    assert_eq!(err, ContractError::AlreadyInUse);
}

#[test]
fn create_with_empty_balance_fails() {
    let mut store = EscrowStore::new();
    let (create, _, sender) = quick_create_msg_cw20();
    let err = execute_create(&mut store, create.clone(), Balance::Native(vec![]), &sender)
        .unwrap_err();
    assert_eq!(err, ContractError::EmptyBalance);

    let err = execute_top_up(&mut store, "whatever".to_string(), Balance::Native(vec![]))
        .unwrap_err();
    assert_eq!(err, ContractError::EmptyBalance);
}

#[test]
fn unknown_id_fails_not_found() {
    let mut store = EscrowStore::new();
    let err = execute_top_up(&mut store, "nothing".to_string(), Balance::Native(coins(1, "x")))
        .unwrap_err();
    assert_eq!(err, ContractError::NotFound);
    let err = execute_approve(&mut store, &"validator1".to_string(), &"nothing".to_string())
        .unwrap_err();
    assert_eq!(err, ContractError::NotFound);
    let err = query_details(&store, &"nothing".to_string()).unwrap_err();
    assert_eq!(err, ContractError::NotFound);
}

#[test]
fn stranger_cannot_settle() {
    let mut store = EscrowStore::new();
    let (create, balance, sender) = quick_create_msg_cw20();
    execute_create(&mut store, create.clone(), balance, &sender).unwrap();

    let stranger = "impostor".to_string();
    let err = execute_approve(&mut store, &stranger, &create.id).unwrap_err();
    assert_eq!(err, ContractError::Unauthorized);
    let err = execute_refund(&mut store, &stranger, &create.id).unwrap_err();
    assert_eq!(err, ContractError::Unauthorized);

    // the escrow is untouched and still open
    let details = query_details(&store, &create.id).unwrap();
    assert_eq!(details.status, Status::Opened);
}

#[test]
fn funding_token_is_auto_admitted() {
    let mut store = EscrowStore::new();
    let create = CreateMsg {
        id: "funded".to_string(),
        url: "https://example.invalid".to_string(),
        description: "auto-admission".to_string(),
        validators: vec!["validator1".to_string()],
        proposer: "recd".to_string(),
        source: "dorium".to_string(),
        cw20_whitelist: None,
    };
    let funding = Balance::Cw20(Cw20Coin {
        address: "my-token".to_string(),
        amount: 100,
    });
    execute_create(&mut store, create, funding, &"dorium".to_string()).unwrap();

    let details = query_details(&store, &"funded".to_string()).unwrap();
    assert_eq!(details.cw20_whitelist, vec!["my-token".to_string()]);

    // the funding token may top up
    let res = execute_top_up(
        &mut store,
        "funded".to_string(),
        Balance::Cw20(Cw20Coin {
            address: "my-token".to_string(),
            amount: 25,
        }),
    );
    assert!(res.is_ok());

    // an unlisted token may not
    let err = execute_top_up(
        &mut store,
        "funded".to_string(),
        Balance::Cw20(Cw20Coin {
            address: "unlisted-token".to_string(),
            amount: 25,
        }),
    )
    .unwrap_err();
    assert_eq!(err, ContractError::NotInWhitelist);
}

#[test]
fn list_queries_follow_key_order() {
    let mut store = EscrowStore::new();
    for id in ["lazy", "assign", "zen"] {
        let create = CreateMsg {
            id: id.to_string(),
            url: "https://example.invalid".to_string(),
            description: "listing".to_string(),
            validators: vec!["validator1".to_string()],
            proposer: "recd".to_string(),
            source: "dorium".to_string(),
            cw20_whitelist: None,
        };
        execute_create(&mut store, create, Balance::Native(coins(1, "fee")), &"dorium".to_string())
            .unwrap();
    }
    let list = query_list(&store);
    assert_eq!(
        list.escrows,
        vec!["assign".to_string(), "lazy".to_string(), "zen".to_string()]
    );
    let detailed = query_list_detailed(&store);
    let ids: Vec<String> = detailed.escrows.iter().map(|d| d.id.clone()).collect();
    assert_eq!(
        ids,
        vec!["assign".to_string(), "lazy".to_string(), "zen".to_string()]
    );
}
