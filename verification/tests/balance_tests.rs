use dorium_escrow::balance::{Balance, Coin, Cw20Coin, GenericBalance};

fn coin(amount: u128, denom: &str) -> Coin {
    Coin { denom: denom.to_string(), amount }
}

#[test]
fn add_tokens_native() {
    let mut tokens = GenericBalance::default();
    tokens.add_tokens(Balance::Native(vec![coin(123, "atom"), coin(789, "eth")]));
    tokens.add_tokens(Balance::Native(vec![coin(456, "atom"), coin(12, "btc")]));
    assert_eq!(
        tokens.native,
        vec![coin(579, "atom"), coin(789, "eth"), coin(12, "btc")]
    );
}

#[test]
fn add_tokens_cw20() {
    let mut tokens = GenericBalance::default();
    let bar_token = "bar_token".to_string();
    let foo_token = "foo_token".to_string();
    tokens.add_tokens(Balance::Cw20(Cw20Coin {
        address: foo_token.clone(),
        amount: 12345,
    }));
    tokens.add_tokens(Balance::Cw20(Cw20Coin {
        address: bar_token.clone(),
        amount: 777,
    }));
    tokens.add_tokens(Balance::Cw20(Cw20Coin {
        address: foo_token.clone(),
        amount: 23400,
    }));
    assert_eq!(
        tokens.cw20,
        vec![
            Cw20Coin {
                address: foo_token,
                amount: 35745,
            },
            Cw20Coin {
                address: bar_token,
                amount: 777,
            }
        ]
    );
}

fn native_amount(b: &GenericBalance, denom: &str) -> u128 {
    b.native
        .iter()
        .filter(|c| c.denom == denom)
        .map(|c| c.amount)
        .sum()
}

#[test]
fn merge_order_does_not_matter() {
    let first = Balance::Native(vec![coin(100, "fee"), coin(200, "stake")]);
    let second = Balance::Native(vec![coin(300, "stake"), coin(7, "gas")]);
    let first_again = Balance::Native(vec![coin(100, "fee"), coin(200, "stake")]);
    let second_again = Balance::Native(vec![coin(300, "stake"), coin(7, "gas")]);

    let mut one_way = GenericBalance::default();
    one_way.add_tokens(first);
    one_way.add_tokens(second);

    let mut other_way = GenericBalance::default();
    other_way.add_tokens(second_again);
    other_way.add_tokens(first_again);

    for denom in ["fee", "stake", "gas"] {
        assert_eq!(native_amount(&one_way, denom), native_amount(&other_way, denom));
    }
    assert_eq!(native_amount(&one_way, "stake"), 500);
    assert_eq!(native_amount(&one_way, "fee"), 100);
    assert_eq!(native_amount(&one_way, "gas"), 7);
}

#[test]
fn zero_amounts_are_ignored() {
    let mut tokens = GenericBalance::default();
    tokens.add_tokens(Balance::Native(vec![coin(0, "dust"), coin(5, "fee")]));
    assert_eq!(tokens.native, vec![coin(5, "fee")]);

    let empty_native = Balance::Native(vec![coin(0, "dust")]);
    assert!(empty_native.is_empty());
    let empty_cw20 = Balance::Cw20(Cw20Coin {
        address: "token".to_string(),
        amount: 0,
    });
    assert!(empty_cw20.is_empty());
    let nonempty = Balance::Native(vec![coin(0, "dust"), coin(1, "fee")]);
    assert!(!nonempty.is_empty());
}
