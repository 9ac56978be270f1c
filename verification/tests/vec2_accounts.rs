use homeworks::accounts::{Account, Bank};
use homeworks::vec2::Vec2;

fn vec2f(x: f32, y: f32) -> Vec2<f32> {
    Vec2 { x, y }
}

fn vec2i(x: i32, y: i32) -> Vec2<i32> {
    Vec2 { x, y }
}

#[test]
fn test_add() {
    let res = vec2f(1.0, 4.0) + vec2f(-9.0, 6.0);
    assert_eq!(res, vec2f(-8.0, 10.0));

    let res = vec2i(1, 4) + vec2i(-9, 6);
    assert_eq!(res, vec2i(-8, 10));
}

#[test]
fn test_neg() {
    let res = -vec2f(1.0, -4.0);
    assert_eq!(res, vec2f(-1.0, 4.0));

    let res = -vec2i(1, -4);
    assert_eq!(res, vec2i(-1, 4));
}

#[test]
fn task1() {
    let ac1 = Account::new(100, "ac1");
    let _ac2 = Account::new(0, "ac2");
    let _ac3 = Account::new(-100, "ac3");
    println!("{}", ac1.balance_line());
}

#[test]
fn task2_print() {
    let ac1 = Account::new(100, "ac1");
    let ac2 = Account::new(0, "ac2");
    let ac3 = Account::new(-100, "ac3");
    println!("{}", ac1.balance_line());
    println!("{}", ac2.balance_line());
    println!("{}", ac3.balance_line());
}

#[test]
fn balance_and_farewell_lines() {
    let ac = Account::new(-100, "ac3");
    assert_eq!(ac.balance_line(), "Account code: ac3 Balance: -100");
    assert_eq!(ac.farewell_line(), "WARNING: Account ac3 not destroyed balance: -100");
    let empty = Account::new(0, "ac2");
    assert_eq!(empty.farewell_line(), "Account ac2 destroyed");
    let low = Account::new(i64::MIN, "x");
    assert_eq!(low.balance_line(), "Account code: x Balance: -9223372036854775808");
}

#[test]
fn task2_transfer_funds() {
    let mut ac1 = Account::new(100, "ac1");
    let mut ac2 = Account::new(0, "ac2");
    ac2.transfer_funds(&mut ac1, 25);
    assert_eq!(ac1.balance(), 75);
    assert_eq!(ac2.balance(), 25);
}

#[test]
fn task2_destroy_account() {
    let ac1 = Account::new(100, "ac1");
    let mut ac2 = Account::new(0, "ac2");
    ac1.destroy_account(&mut ac2);
    assert_eq!(ac2.balance(), 100);
}

#[test]
fn test_bank_acc() {
    let ac1 = Account::new(100, "ac1");
    let _ac2 = Account::new(1000, "ac2");
    let ac2 = Account::new(-1100, "ac3");
    let mut bank = Bank::new(10, 10, vec![ac1, ac2]);

    bank.accrue_interest();
    for x in bank.accounts() {
        if x.code() == "ac1" {
            assert_eq!(x.balance(), 101);
        } else if x.code() == "ac2" {
            assert_eq!(x.balance(), 1010);
        } else {
            assert_eq!(x.balance(), -1111);
        }
    }
}

#[test]
fn interest_rounds_toward_zero() {
    let mut bank = Bank::new(10, 10, vec![Account::new(-1005, "a"), Account::new(1005, "b")]);
    bank.accrue_interest();
    assert_eq!(bank.accounts()[0].balance(), -1015);
    assert_eq!(bank.accounts()[1].balance(), 1015);
}

#[test]
fn test_bank_balance() {
    let ac1 = Account::new(-1000, "ac1");
    let ac2 = Account::new(300, "ac2");
    let ac3 = Account::new(700, "ac3");
    let bank = Bank::new(10, 0, vec![ac1, ac2, ac3]);
    let balance = bank.bank_balance();
    assert_eq!(balance.0, -1000);
    assert_eq!(balance.1, 1000);
}

#[test]
fn test_merge_banks() {
    let ac1 = Account::new(100, "ac1");
    let ac2 = Account::new(1000, "ac2");
    let ac3 = Account::new(200, "ac3");
    let ac4 = Account::new(2000, "ac4");
    let bank_from = Bank::new(10, 0, vec![ac1, ac2]);
    let mut bank_to = Bank::new(10, 0, vec![ac3, ac4]);
    bank_to.merge_banks(bank_from);
    assert_eq!(bank_to.accounts().len(), 4);
    let a = bank_to.accounts().iter().find(|x| x.code() == "ac1").unwrap();
    assert_eq!(a.balance(), 100);
}
