use homeworks::bank::{
    AccountDuplicationError, AccountNotFoundError, AmountNegativeError, Bank, BankError, BankTrait,
    InsufficientFundsError, OperationType, SomeAccountTransferError,
};

fn bank_with_accounts(names: &[&str]) -> Bank<f64> {
    let mut bank = Bank::new();
    for name in names {
        let _ = bank.create_account(name);
    }
    bank
}

#[test]
fn test_create_account() {
    let mut bank: Bank<f64> = Bank::new();
    match bank.create_account("Alice") {
        Ok(res) => assert!(!res.is_empty()),
        Err(res) => panic!("Unexpected error: {:?}", res),
    }
    match bank.create_account("Bob") {
        Ok(res) => assert!(!res.is_empty()),
        Err(res) => panic!("Unexpected error: {:?}", res),
    }
    match bank.create_account("Alice") {
        Ok(res) => panic!("Unexpected behavior when account already exists: {:?}", res),
        Err(res) => assert_eq!(
            res,
            BankError::AccountDuplication(AccountDuplicationError {
                account: "Alice".to_string()
            })
        ),
    }
}

#[test]
fn test_deposit() {
    let mut bank = bank_with_accounts(&["Alice"]);

    match bank.deposit("Alice", 100.0) {
        Ok(res) => assert!(!res.is_empty()),
        Err(res) => panic!("Unexpected error: {:?}", res),
    };

    match bank.get_balance("Alice") {
        Ok(res) => assert_eq!(res, 100.0),
        Err(res) => panic!("Unexpected balance after deposit: {:?}", res),
    }
    match bank.deposit("Alice", -50.0) {
        Ok(res) => panic!("Unexpected error: {:?}", res),
        Err(res) => assert_eq!(
            res,
            BankError::AmountNegative(AmountNegativeError {
                account: "Alice".to_string(),
                amount: -50.0,
            })
        ),
    }
}

#[test]
fn test_withdraw() {
    let mut bank = bank_with_accounts(&["Alice"]);
    bank.deposit("Alice", 100.0).unwrap();

    match bank.withdraw("Alice", 50.0) {
        Ok(res) => assert!(!res.is_empty()),
        Err(res) => panic!("Unexpected error: {:?}", res),
    };

    match bank.get_balance("Alice") {
        Ok(res) => assert_eq!(res, 50.0),
        Err(res) => panic!("Unexpected balance after withdraw: {:?}", res),
    }

    match bank.withdraw("Alice", -30.0) {
        Ok(res) => panic!("Unexpected error: {:?}", res),
        Err(res) => assert_eq!(
            res,
            BankError::AmountNegative(AmountNegativeError {
                account: "Alice".to_string(),
                amount: -30.0,
            })
        ),
    }

    match bank.withdraw("Alice", 100.0) {
        Ok(res) => panic!("Unexpected error: {:?}", res),
        Err(res) => assert_eq!(
            res,
            BankError::InsufficientFunds(InsufficientFundsError {
                account: "Alice".to_string(),
                balance: 50.0,
                amount: 100.0,
            })
        ),
    }
}

#[test]
fn test_transfer() {
    let mut bank = bank_with_accounts(&["Alice", "Bob"]);

    bank.deposit("Alice", 100.0).unwrap();
    let transaction_result = bank.transfer("Alice", "Bob", 50.0);
    assert!(transaction_result.is_ok());
    assert!(!transaction_result.unwrap().is_empty());
    assert_eq!(bank.get_balance("Alice").unwrap(), 50.0);
    assert_eq!(bank.get_balance("Bob").unwrap(), 50.0);
    if let Err(res) = bank.transfer("Alice", "Bob", -30.0) {
        assert_eq!(
            res,
            AmountNegativeError {
                amount: -30.0,
                account: "Alice".to_string(),
            }
            .into()
        );
    } else {
        panic!("Unexpected logic")
    }
    if let Err(res) = bank.transfer("Alice", "Bob", 100.0) {
        assert_eq!(
            res,
            InsufficientFundsError {
                amount: 100.0,
                account: "Alice".to_string(),
                balance: 50.0,
            }
            .into()
        );
    } else {
        panic!("Unexpected logic")
    }
    if let Err(res) = bank.transfer("Alice", "Alice", 20.0) {
        assert_eq!(
            res,
            SomeAccountTransferError {
                account: "Alice".to_string()
            }
            .into()
        );
    } else {
        panic!("Unexpected logic")
    }
    if let Err(res) = bank.transfer("Eve", "Bob", 10.0) {
        assert_eq!(
            res,
            AccountNotFoundError {
                account: "Eve".to_string()
            }
            .into()
        );
    } else {
        panic!("Unexpected logic")
    }
    if let Err(res) = bank.transfer("Alice", "Eve", 10.0) {
        assert_eq!(
            res,
            AccountNotFoundError {
                account: "Eve".to_string()
            }
            .into()
        );
    } else {
        panic!("Unexpected logic")
    }
}

#[test]
fn test_transfer_without_target() {
    let mut bank = bank_with_accounts(&["Alice"]);

    bank.deposit("Alice", 100.0).unwrap();
    let transaction_result = bank.transfer("Alice", "Bob", 50.0);
    assert!(transaction_result.is_err());
    assert_eq!(
        transaction_result.err().unwrap(),
        AccountNotFoundError {
            account: "Bob".to_string()
        }
        .into()
    )
}

#[test]
fn test_get_balance() {
    let mut bank = bank_with_accounts(&["Alice"]);
    bank.deposit("Alice", 100.0).unwrap();
    if let Ok(res) = bank.get_balance("Alice") {
        assert_eq!(res, 100.0);
    } else {
        panic!("Unexpected logic")
    }
    if let Err(res) = bank.get_balance("Bob") {
        assert_eq!(
            res,
            AccountNotFoundError {
                account: "Bob".to_string()
            }
            .into()
        )
    } else {
        panic!("Unexpected logic")
    }
}

#[test]
fn test_get_history() {
    let mut bank = bank_with_accounts(&["Alice", "Bob"]);
    bank.deposit("Alice", 100.0).unwrap();
    bank.transfer("Alice", "Bob", 50.0).unwrap();

    match bank.get_history() {
        Ok(history) => {
            assert_eq!(history.len(), 4);
            assert_eq!(
                history.iter().nth(0).unwrap().operation_type,
                OperationType::CreateAccount
            );
            assert_eq!(
                history.iter().nth(1).unwrap().operation_type,
                OperationType::CreateAccount
            );
            assert_eq!(
                history.iter().nth(2).unwrap().operation_type,
                OperationType::Deposit
            );
            assert_eq!(
                history.iter().nth(3).unwrap().operation_type,
                OperationType::Transfer {
                    target_account: "Bob".to_string()
                }
            );
        }
        Err(res) => panic!("Unexpected error: {:?}", res),
    }
}

#[test]
fn test_get_account_history() {
    let mut bank = bank_with_accounts(&["Alice", "Bob"]);
    bank.deposit("Alice", 100.0).unwrap();
    bank.transfer("Alice", "Bob", 50.0).unwrap();

    match bank.get_account_history("Alice") {
        Ok(alice_history) => {
            assert_eq!(alice_history.len(), 3);
            assert_eq!(
                alice_history[0].operation_type,
                OperationType::CreateAccount
            );
            assert_eq!(alice_history[1].operation_type, OperationType::Deposit);
            assert_eq!(
                alice_history[2].operation_type,
                OperationType::Transfer {
                    target_account: "Bob".to_string()
                }
            );
        }
        Err(res) => panic!("Unexpected error: {:?}", res),
    }
    match bank.get_account_history("Bob") {
        Ok(bob_history) => {
            assert_eq!(bob_history.len(), 2);
            assert_eq!(bob_history[0].operation_type, OperationType::CreateAccount);
        }
        Err(res) => panic!("Unexpected error: {:?}", res),
    }
}

#[test]
fn test_replay_history() {
    let mut source_bank = bank_with_accounts(&["Alice", "Bob"]);
    source_bank.deposit("Alice", 100.0).unwrap();
    source_bank.transfer("Alice", "Bob", 50.0).unwrap();
    let target_bank = Bank::replay_history(&source_bank.get_history().unwrap());
    assert_eq!(target_bank.get_balance("Alice").unwrap(), 50.0);
    assert_eq!(target_bank.get_balance("Bob").unwrap(), 50.0);
    match target_bank.get_account_history("Alice") {
        Ok(alice_history) => {
            assert_eq!(alice_history.len(), 3);
            assert_eq!(
                alice_history[0].operation_type,
                OperationType::CreateAccount
            );
            assert_eq!(alice_history[1].operation_type, OperationType::Deposit);
            assert_eq!(
                alice_history[2].operation_type,
                OperationType::Transfer {
                    target_account: "Bob".to_string()
                }
            );
        }
        Err(res) => panic!("Unexpected error: {:?}", res),
    }
    match target_bank.get_account_history("Bob") {
        Ok(bob_history) => {
            assert_eq!(bob_history.len(), 2);
            assert_eq!(bob_history[0].operation_type, OperationType::CreateAccount);
            assert_eq!(
                bob_history[1].operation_type,
                OperationType::Transfer {
                    target_account: "Bob".to_string()
                }
            );
        }
        Err(res) => panic!("Unexpected error: {:?}", res),
    }
}

#[test]
fn test_get_operation_by_id() {
    let mut bank = bank_with_accounts(&["Alice", "Bob"]);
    let oper_1 = bank.deposit("Alice", 100.0).unwrap();
    let oper_2 = bank.transfer("Alice", "Bob", 50.0).unwrap();

    let res = bank.get_operation_by_id(&oper_1);
    if None == res {
        panic!("Unexpected error: result");
    }
    let oper = res.unwrap();
    assert_eq!(oper.operation_type, OperationType::Deposit);
    assert_eq!(oper.source_account, "Alice");
    assert_eq!(oper.amount, 100.0);

    let res = bank.get_operation_by_id(&oper_2);
    if None == res {
        panic!("Unexpected  result");
    }
    let oper = res.unwrap();
    assert_eq!(
        oper.operation_type,
        OperationType::Transfer {
            target_account: "Bob".to_owned()
        }
    );
    assert_eq!(oper.source_account, "Alice");
    assert_eq!(oper.amount, 50.0);
}

#[test]
fn integer_bank_keeps_whole_amounts() {
    let mut bank: Bank<i64> = Bank::new();
    bank.create_account("Ann").unwrap();
    bank.create_account("Ben").unwrap();
    bank.deposit("Ann", 70).unwrap();
    bank.transfer("Ann", "Ben", 30).unwrap();
    bank.withdraw("Ben", 5).unwrap();
    assert_eq!(bank.get_balance("Ann").unwrap(), 40);
    assert_eq!(bank.get_balance("Ben").unwrap(), 25);
    assert_eq!(bank.get_history().unwrap().len(), 5);
    assert_eq!(bank.get_account_history("Ben").unwrap().len(), 3);
    assert!(matches!(bank.deposit("Ann", 0), Err(BankError::AmountNegative(_))));
    assert!(matches!(bank.withdraw("Ann", 41), Err(BankError::InsufficientFunds(_))));
    assert_eq!(bank.get_balance("Ann").unwrap(), 40);
    assert_eq!(bank.get_history().unwrap().len(), 5);
}

#[test]
fn refused_operations_leave_no_trace() {
    let mut bank = bank_with_accounts(&["Alice"]);
    assert!(bank.deposit("Nobody", 5.0).is_err());
    assert!(bank.withdraw("Alice", 1.0).is_err());
    assert!(bank.create_account("Alice").is_err());
    assert_eq!(bank.get_history().unwrap().len(), 1);
    assert_eq!(bank.get_account_history("Alice").unwrap().len(), 1);
    assert!(matches!(
        bank.get_account_history("Nobody"),
        Err(BankError::AccountNotFound(_))
    ));
    assert!(bank.get_operation_by_id(&"no such id".to_string()).is_none());
}

#[test]
fn replay_of_integer_history_gives_same_balances() {
    let mut source: Bank<i64> = Bank::new();
    source.create_account("a").unwrap();
    source.create_account("b").unwrap();
    source.deposit("a", 9).unwrap();
    source.transfer("a", "b", 4).unwrap();
    source.withdraw("b", 1).unwrap();
    let copy = Bank::replay_history(&source.get_history().unwrap());
    assert_eq!(copy.get_balance("a").unwrap(), 5);
    assert_eq!(copy.get_balance("b").unwrap(), 3);
    let kinds: Vec<OperationType> = copy
        .get_history()
        .unwrap()
        .into_iter()
        .map(|op| op.operation_type)
        .collect();
    let source_kinds: Vec<OperationType> = source
        .get_history()
        .unwrap()
        .into_iter()
        .map(|op| op.operation_type)
        .collect();
    assert_eq!(kinds, source_kinds);
}

#[test]
fn error_helper_names_the_account() {
    let e: BankError<f64> = BankError::account_not_found("Zed".to_string());
    assert_eq!(
        e,
        BankError::AccountNotFound(AccountNotFoundError {
            account: "Zed".to_string()
        })
    );
}

#[test]
fn operation_ids_are_ulids() {
    let mut bank: Bank<i64> = Bank::new();
    let first = bank.create_account("a").unwrap();
    let second = bank.deposit("a", 3).unwrap();
    assert_eq!(first.len(), 26);
    assert_eq!(second.len(), 26);
    assert_ne!(first, second);
    assert_eq!(bank.get_operation_by_id(&second).unwrap().amount, 3);
}

#[test]
fn each_operation_is_found_by_its_id() {
    let mut bank = bank_with_accounts(&["Alice", "Bob"]);
    let d = bank.deposit("Alice", 10.0).unwrap();
    let w = bank.withdraw("Alice", 4.0).unwrap();
    let t = bank.transfer("Alice", "Bob", 1.0).unwrap();
    assert_eq!(bank.get_operation_by_id(&d).unwrap().operation_type, OperationType::Deposit);
    assert_eq!(bank.get_operation_by_id(&w).unwrap().operation_type, OperationType::Withdraw);
    assert_eq!(bank.get_operation_by_id(&t).unwrap().amount, 1.0);
    let ids: Vec<String> = bank.get_history().unwrap().into_iter().map(|op| op.id).collect();
    let mut sorted = ids.clone();
    sorted.sort();
    sorted.dedup();
    assert_eq!(ids, sorted);
    assert_eq!(bank.get_account_history("Bob").unwrap().last().unwrap().id, t);
}
