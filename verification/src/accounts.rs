//! Accounts with whole-number balances, and a bank that merges, sums and
//! charges interest on them.
use vstd::prelude::*;
use vstd::string::*;
use crate::text::{push_signed_decimal, signed_decimal};

verus! {

/// Integer division rounding toward zero, as Rust's `/` does (for `b > 0`).
pub open spec fn div_toward_zero(a: int, b: int) -> int {
    if a >= 0 {
        a / b
    } else {
        -((-a) / b)
    }
}

pub struct Account {
    balance: i64,
    code: String,
}

impl Account {
    pub closed spec fn spec_balance(&self) -> int {
        self.balance as int
    }

    pub closed spec fn spec_code(&self) -> Seq<char> {
        self.code@
    }

    /// An account with the given balance and code.
    pub fn new(balance: i64, code: &str) -> (a: Self)
        ensures
            a.spec_balance() == balance,
            a.spec_code() == code@,
    {
        Self { balance, code: String::from_str(code) }
    }

    /// The balance.
    pub fn balance(&self) -> (b: i64)
        ensures
            b == self.spec_balance(),
    {
        self.balance
    }

    /// The code.
    pub fn code(&self) -> (c: &str)
        ensures
            c@ == self.spec_code(),
    {
        self.code.as_str()
    }

    /// `Account code: <code> Balance: <balance>`.
    pub fn balance_line(&self) -> (text: String)
        ensures
            text@ == "Account code: "@ + self.spec_code() + " Balance: "@ + signed_decimal(
                self.spec_balance(),
            ),
    {
        let mut text = String::from_str("Account code: ");
        text.append(self.code.as_str());
        text.append(" Balance: ");
        push_signed_decimal(&mut text, self.balance);
        text
    }

    /// What is said of the account when it goes away: that it is destroyed
    /// when empty, else a warning with the balance left.
    pub fn farewell_line(&self) -> (text: String)
        ensures
            self.spec_balance() == 0 ==> text@ == "Account "@ + self.spec_code() + " destroyed"@,
            self.spec_balance() != 0 ==> text@ == "WARNING: Account "@ + self.spec_code()
                + " not destroyed balance: "@ + signed_decimal(self.spec_balance()),
    {
        if self.balance == 0 {
            let mut text = String::from_str("Account ");
            text.append(self.code.as_str());
            text.append(" destroyed");
            text
        } else {
            let mut text = String::from_str("WARNING: Account ");
            text.append(self.code.as_str());
            text.append(" not destroyed balance: ");
            push_signed_decimal(&mut text, self.balance);
            text
        }
    }

    /// Moves `amount` from `from_account` into this account.
    pub fn transfer_funds(&mut self, from_account: &mut Account, amount: i64)
        requires
            i64::MIN <= old(self).spec_balance() + amount <= i64::MAX,
            i64::MIN <= old(from_account).spec_balance() - amount <= i64::MAX,
        ensures
            final(self).spec_balance() == old(self).spec_balance() + amount,
            final(from_account).spec_balance() == old(from_account).spec_balance() - amount,
            final(self).spec_balance() + final(from_account).spec_balance() == old(
                self,
            ).spec_balance() + old(from_account).spec_balance(),
            final(self).spec_code() == old(self).spec_code(),
            final(from_account).spec_code() == old(from_account).spec_code(),
    {
        self.balance = self.balance + amount;
        from_account.balance = from_account.balance - amount;
    }

    /// Closes this account, moving its whole balance into `to_account`.
    pub fn destroy_account(self, to_account: &mut Account)
        requires
            i64::MIN <= old(to_account).spec_balance() + self.spec_balance() <= i64::MAX,
        ensures
            final(to_account).spec_balance() == old(to_account).spec_balance()
                + self.spec_balance(),
            final(to_account).spec_code() == old(to_account).spec_code(),
    {
        let mut this = self;
        let amount = this.balance;
        to_account.transfer_funds(&mut this, amount);
    }
}

/// The sum of the negative balances.
pub open spec fn liabilities(accounts: Seq<Account>) -> int
    decreases accounts.len(),
{
    if accounts.len() == 0 {
        0
    } else {
        let b = accounts.last().spec_balance();
        liabilities(accounts.drop_last()) + if b < 0 {
            b
        } else {
            0
        }
    }
}

/// The sum of the positive balances.
pub open spec fn assets(accounts: Seq<Account>) -> int
    decreases accounts.len(),
{
    if accounts.len() == 0 {
        0
    } else {
        let b = accounts.last().spec_balance();
        assets(accounts.drop_last()) + if b > 0 {
            b
        } else {
            0
        }
    }
}

/// The balance after interest: a negative balance grows by `credit_rate`
/// per mille, any other by `debit_rate` per mille, rounded toward zero.
pub open spec fn with_interest(balance: int, credit_rate: int, debit_rate: int) -> int {
    if balance < 0 {
        balance + div_toward_zero(balance * credit_rate, 1000)
    } else {
        balance + div_toward_zero(balance * debit_rate, 1000)
    }
}

/// Whether charging interest on `balance` stays within `i64`.
pub open spec fn interest_fits(balance: int, credit_rate: int, debit_rate: int) -> bool {
    let rate = if balance < 0 {
        credit_rate
    } else {
        debit_rate
    };
    &&& i64::MIN <= balance * rate <= i64::MAX
    &&& i64::MIN <= with_interest(balance, credit_rate, debit_rate) <= i64::MAX
}

pub struct Bank {
    accounts: Vec<Account>,
    credit_rate: u32,
    debit_rate: u32,
}

impl View for Bank {
    type V = Seq<Account>;

    closed spec fn view(&self) -> Seq<Account> {
        self.accounts@
    }
}

impl Bank {
    pub closed spec fn spec_credit_rate(&self) -> nat {
        self.credit_rate as nat
    }

    pub closed spec fn spec_debit_rate(&self) -> nat {
        self.debit_rate as nat
    }

    pub fn new(credit_rate: u32, debit_rate: u32, accounts: Vec<Account>) -> (bank: Self)
        ensures
            bank@ == accounts@,
            bank.spec_credit_rate() == credit_rate,
            bank.spec_debit_rate() == debit_rate,
    {
        Self { accounts, credit_rate, debit_rate }
    }

    /// The accounts, in order.
    pub fn accounts(&self) -> (a: &Vec<Account>)
        ensures
            a@ == self@,
    {
        &self.accounts
    }

    /// Takes over every account of `bank_from`, after this bank's own.
    pub fn merge_banks(&mut self, bank_from: Bank)
        ensures
            final(self)@ == old(self)@ + bank_from@,
            final(self).spec_credit_rate() == old(self).spec_credit_rate(),
            final(self).spec_debit_rate() == old(self).spec_debit_rate(),
    {
        let mut from = bank_from;
        self.accounts.append(&mut from.accounts);
    }

    /// The sum of the negative balances and the sum of the positive ones.
    pub fn bank_balance(&self) -> (totals: (i64, i64))
        requires
            forall|k: int|
                0 <= k <= self@.len() ==> i64::MIN <= #[trigger] liabilities(self@.take(k)),
            forall|k: int| 0 <= k <= self@.len() ==> #[trigger] assets(self@.take(k)) <= i64::MAX,
        ensures
            totals.0 == liabilities(self@),
            totals.1 == assets(self@),
    {
        let mut negative: i64 = 0;
        let mut positive: i64 = 0;
        let mut i: usize = 0;
        while i < self.accounts.len()
            invariant
                0 <= i <= self@.len(),
                forall|k: int|
                    0 <= k <= self@.len() ==> i64::MIN <= #[trigger] liabilities(self@.take(k)),
                forall|k: int|
                    0 <= k <= self@.len() ==> #[trigger] assets(self@.take(k)) <= i64::MAX,
                negative == liabilities(self@.take(i as int)),
                positive == assets(self@.take(i as int)),
            decreases self@.len() - i,
        {
            let b = self.accounts[i].balance;
            assert(self@.take(i + 1).drop_last() =~= self@.take(i as int));
            assert(liabilities(self@.take(i + 1)) >= i64::MIN);
            assert(assets(self@.take(i + 1)) <= i64::MAX);
            proof {
                lemma_liabilities_nonpositive(self@.take(i as int));
                lemma_assets_nonnegative(self@.take(i as int));
            }
            if b < 0 {
                negative = negative + b;
            }
            if b > 0 {
                positive = positive + b;
            }
            i = i + 1;
        }
        assert(self@.take(self@.len() as int) =~= self@);
        (negative, positive)
    }

    /// Charges interest on every account: negative balances at the credit
    /// rate, the others at the debit rate, per mille, rounded toward zero.
    pub fn accrue_interest(&mut self)
        requires
            forall|k: int|
                0 <= k < old(self)@.len() ==> interest_fits(
                    #[trigger] old(self)@[k].spec_balance(),
                    old(self).spec_credit_rate() as int,
                    old(self).spec_debit_rate() as int,
                ),
        ensures
            final(self)@.len() == old(self)@.len(),
            final(self).spec_credit_rate() == old(self).spec_credit_rate(),
            final(self).spec_debit_rate() == old(self).spec_debit_rate(),
            forall|k: int|
                0 <= k < old(self)@.len() ==> {
                    &&& #[trigger] final(self)@[k].spec_balance() == with_interest(
                        old(self)@[k].spec_balance(),
                        old(self).spec_credit_rate() as int,
                        old(self).spec_debit_rate() as int,
                    )
                    &&& final(self)@[k].spec_code() == old(self)@[k].spec_code()
                },
    {
        let ghost start = self@;
        let credit = self.credit_rate as i64;
        let debit = self.debit_rate as i64;
        let mut i: usize = 0;
        while i < self.accounts.len()
            invariant
                0 <= i <= self@.len(),
                self@.len() == start.len(),
                credit == self.spec_credit_rate(),
                debit == self.spec_debit_rate(),
                self.spec_credit_rate() == old(self).spec_credit_rate(),
                self.spec_debit_rate() == old(self).spec_debit_rate(),
                start == old(self)@,
                forall|k: int|
                    0 <= k < start.len() ==> interest_fits(
                        #[trigger] start[k].spec_balance(),
                        credit as int,
                        debit as int,
                    ),
                forall|k: int|
                    0 <= k < i ==> {
                        &&& #[trigger] self@[k].spec_balance() == with_interest(
                            start[k].spec_balance(),
                            credit as int,
                            debit as int,
                        )
                        &&& self@[k].spec_code() == start[k].spec_code()
                    },
                forall|k: int| i <= k < start.len() ==> #[trigger] self@[k] == start[k],
            decreases self@.len() - i,
        {
            let balance = self.accounts[i].balance;
            assert(interest_fits(start[i as int].spec_balance(), credit as int, debit as int));
            let updated = if balance < 0 {
                balance + balance * credit / 1000
            } else {
                balance + balance * debit / 1000
            };
            self.accounts[i].balance = updated;
            i = i + 1;
        }
    }
}

proof fn lemma_liabilities_nonpositive(accounts: Seq<Account>)
    ensures
        liabilities(accounts) <= 0,
    decreases accounts.len(),
{
    if accounts.len() > 0 {
        lemma_liabilities_nonpositive(accounts.drop_last());
    }
}

proof fn lemma_assets_nonnegative(accounts: Seq<Account>)
    ensures
        assets(accounts) >= 0,
    decreases accounts.len(),
{
    if accounts.len() > 0 {
        lemma_assets_nonnegative(accounts.drop_last());
    }
}

/// Merging banks keeps the totals: the liabilities and the assets of the
/// merged accounts are the sums of those of the two banks.
pub proof fn lemma_merge_keeps_totals(first: Seq<Account>, second: Seq<Account>)
    ensures
        liabilities(first + second) == liabilities(first) + liabilities(second),
        assets(first + second) == assets(first) + assets(second),
    decreases second.len(),
{
    if second.len() == 0 {
        assert(first + second =~= first);
    } else {
        lemma_merge_keeps_totals(first, second.drop_last());
        assert((first + second).drop_last() =~= first + second.drop_last());
        assert((first + second).last() == second.last());
    }
}

} // verus!
