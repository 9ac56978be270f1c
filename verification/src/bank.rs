//! A bank of named accounts that records every operation.
//!
//! Amounts are of any type `M` with copying, ordering, `+`, `-` and a
//! default (zero) value. What the contracts say of the amounts themselves
//! holds for types whose operators follow vstd's specifications
//! (`money_laws`), such as the integer types; the bookkeeping holds for all.
use vstd::prelude::*;
use vstd::string::*;
use std::ops::{Add, Sub};
use vstd::std_specs::ops::{AddSpec, SubSpec};
use vstd::std_specs::cmp::{PartialOrdIs, PartialOrdSpec};
use vstd::std_specs::convert::FromSpecImpl;
use crate::text::same_text;
use crate::ids::{
    id_at_most, id_less, lemma_id_less_irreflexive, lemma_id_less_transitive, IdSource,
};

verus! {

/// Whether the amount type's `+`, `-` and ordering follow vstd's
/// specifications.
pub open spec fn money_laws<M: Add<Output = M> + Sub<Output = M> + PartialOrd>() -> bool {
    &&& M::obeys_add_spec()
    &&& M::obeys_sub_spec()
    &&& M::obeys_partial_cmp_spec()
}

pub type TransactionId = String;

#[derive(Debug, PartialEq)]
pub enum OperationType {
    CreateAccount,
    Deposit,
    Withdraw,
    Transfer { target_account: String },
}

/// A bank's answer to a request: the id of an operation, a history, or a
/// balance, or why the request was refused.
pub enum BankResponse<M> {
    Transaction(Result<TransactionId, BankError<M>>),
    History(Result<Vec<Operation<M>>, BankError<M>>),
    Balance(Result<M, BankError<M>>),
}

/// The kind of an operation, as text.
pub enum OpKind {
    CreateAccount,
    Deposit,
    Withdraw,
    Transfer(Seq<char>),
}

pub open spec fn kind_view(t: OperationType) -> OpKind {
    match t {
        OperationType::CreateAccount => OpKind::CreateAccount,
        OperationType::Deposit => OpKind::Deposit,
        OperationType::Withdraw => OpKind::Withdraw,
        OperationType::Transfer { target_account } => OpKind::Transfer(target_account@),
    }
}

impl Clone for OperationType {
    fn clone(&self) -> (c: Self)
        ensures
            kind_view(c) == kind_view(*self),
    {
        match self {
            OperationType::CreateAccount => OperationType::CreateAccount,
            OperationType::Deposit => OperationType::Deposit,
            OperationType::Withdraw => OperationType::Withdraw,
            OperationType::Transfer { target_account } => OperationType::Transfer {
                target_account: target_account.clone(),
            },
        }
    }
}

#[derive(Debug, PartialEq)]
pub struct Operation<M> {
    pub id: String,
    pub source_account: String,
    pub amount: M,
    pub operation_type: OperationType,
}

/// An operation, as text and amount.
pub struct OpView<M> {
    pub id: Seq<char>,
    pub source: Seq<char>,
    pub amount: M,
    pub kind: OpKind,
}

pub open spec fn op_view<M>(op: Operation<M>) -> OpView<M> {
    OpView { id: op.id@, source: op.source_account@, amount: op.amount, kind: kind_view(op.operation_type) }
}

impl<M: Copy> Clone for Operation<M> {
    fn clone(&self) -> (c: Self)
        ensures
            op_view(c) == op_view(*self),
    {
        Operation {
            id: self.id.clone(),
            source_account: self.source_account.clone(),
            amount: self.amount,
            operation_type: self.operation_type.clone(),
        }
    }
}

#[derive(Debug, PartialEq)]
pub struct AccountDuplicationError {
    pub account: String,
}

#[derive(Debug, PartialEq)]
pub struct AccountNotFoundError {
    pub account: String,
}

#[derive(Debug, PartialEq)]
pub struct SomeAccountTransferError {
    pub account: String,
}

#[derive(Debug, PartialEq)]
pub struct AmountNegativeError<M> {
    pub account: String,
    pub amount: M,
}

#[derive(Debug, PartialEq)]
pub struct InsufficientFundsError<M> {
    pub account: String,
    pub amount: M,
    pub balance: M,
}

/// The id generator could not issue an id for an operation on `account`
/// (its counter would overflow within one millisecond); nothing was done.
#[derive(Debug, PartialEq)]
pub struct IdUnavailableError {
    pub account: String,
}

#[derive(Debug, PartialEq)]
pub enum BankError<M> {
    AccountDuplication(AccountDuplicationError),
    AmountNegative(AmountNegativeError<M>),
    AccountNotFound(AccountNotFoundError),
    InsufficientFunds(InsufficientFundsError<M>),
    SomeAccountTransfer(SomeAccountTransferError),
    IdUnavailable(IdUnavailableError),
}

impl<M> From<IdUnavailableError> for BankError<M> {
    fn from(e: IdUnavailableError) -> (r: Self)
        ensures
            r == BankError::<M>::IdUnavailable(e),
    {
        BankError::IdUnavailable(e)
    }
}

impl<M> FromSpecImpl<IdUnavailableError> for BankError<M> {
    open spec fn obeys_from_spec() -> bool {
        true
    }

    open spec fn from_spec(e: IdUnavailableError) -> Self {
        BankError::IdUnavailable(e)
    }
}

impl<M> From<AccountDuplicationError> for BankError<M> {
    fn from(e: AccountDuplicationError) -> (r: Self)
        ensures
            r == BankError::<M>::AccountDuplication(e),
    {
        BankError::AccountDuplication(e)
    }
}

impl<M> FromSpecImpl<AccountDuplicationError> for BankError<M> {
    open spec fn obeys_from_spec() -> bool {
        true
    }

    open spec fn from_spec(e: AccountDuplicationError) -> Self {
        BankError::AccountDuplication(e)
    }
}

impl<M> From<AmountNegativeError<M>> for BankError<M> {
    fn from(e: AmountNegativeError<M>) -> (r: Self)
        ensures
            r == BankError::<M>::AmountNegative(e),
    {
        BankError::AmountNegative(e)
    }
}

impl<M> FromSpecImpl<AmountNegativeError<M>> for BankError<M> {
    open spec fn obeys_from_spec() -> bool {
        true
    }

    open spec fn from_spec(e: AmountNegativeError<M>) -> Self {
        BankError::AmountNegative(e)
    }
}

impl<M> From<AccountNotFoundError> for BankError<M> {
    fn from(e: AccountNotFoundError) -> (r: Self)
        ensures
            r == BankError::<M>::AccountNotFound(e),
    {
        BankError::AccountNotFound(e)
    }
}

impl<M> FromSpecImpl<AccountNotFoundError> for BankError<M> {
    open spec fn obeys_from_spec() -> bool {
        true
    }

    open spec fn from_spec(e: AccountNotFoundError) -> Self {
        BankError::AccountNotFound(e)
    }
}

impl<M> From<InsufficientFundsError<M>> for BankError<M> {
    fn from(e: InsufficientFundsError<M>) -> (r: Self)
        ensures
            r == BankError::<M>::InsufficientFunds(e),
    {
        BankError::InsufficientFunds(e)
    }
}

impl<M> FromSpecImpl<InsufficientFundsError<M>> for BankError<M> {
    open spec fn obeys_from_spec() -> bool {
        true
    }

    open spec fn from_spec(e: InsufficientFundsError<M>) -> Self {
        BankError::InsufficientFunds(e)
    }
}

impl<M> From<SomeAccountTransferError> for BankError<M> {
    fn from(e: SomeAccountTransferError) -> (r: Self)
        ensures
            r == BankError::<M>::SomeAccountTransfer(e),
    {
        BankError::SomeAccountTransfer(e)
    }
}

impl<M> FromSpecImpl<SomeAccountTransferError> for BankError<M> {
    open spec fn obeys_from_spec() -> bool {
        true
    }

    open spec fn from_spec(e: SomeAccountTransferError) -> Self {
        BankError::SomeAccountTransfer(e)
    }
}

impl<M> BankError<M> {
    /// The error for an account that does not exist.
    pub fn account_not_found(account: String) -> (e: Self)
        ensures
            e matches BankError::AccountNotFound(nf) && nf.account@ == account@,
    {
        BankError::AccountNotFound(AccountNotFoundError { account })
    }
}

/// Whether the error says that `account` does not exist.
pub open spec fn is_not_found<M>(e: BankError<M>, account: Seq<char>) -> bool {
    e matches BankError::AccountNotFound(nf) && nf.account@ == account
}

/// The position of the account named `name` among `names` (the last one
/// with that name), or -1.
pub open spec fn position(names: Seq<Seq<char>>, name: Seq<char>) -> int
    decreases names.len(),
{
    if names.len() == 0 {
        -1
    } else if names.last() == name {
        names.len() - 1
    } else {
        position(names.drop_last(), name)
    }
}

proof fn lemma_position(names: Seq<Seq<char>>, name: Seq<char>)
    ensures
        -1 <= position(names, name) < names.len(),
        position(names, name) >= 0 ==> names[position(names, name)] == name,
        position(names, name) < 0 <==> !names.contains(name),
        forall|j: int| position(names, name) < j < names.len() ==> names[j] != name,
    decreases names.len(),
{
    if names.len() > 0 {
        lemma_position(names.drop_last(), name);
        if names.last() != name {
            if names.contains(name) {
                let j = choose|j: int| 0 <= j < names.len() && names[j] == name;
                assert(names.drop_last()[j] == name);
            }
            assert forall|j: int| position(names, name) < j < names.len() implies names[j]
                != name by {
                if j < names.len() - 1 {
                    assert(names.drop_last()[j] == names[j]);
                }
            }
        }
    }
}

/// The position in `history` of the operation with id `id` (the last one
/// with that id), or -1.
pub open spec fn position_of_id<M>(history: Seq<OpView<M>>, id: Seq<char>) -> int
    decreases history.len(),
{
    if history.len() == 0 {
        -1
    } else if history.last().id == id {
        history.len() - 1
    } else {
        position_of_id(history.drop_last(), id)
    }
}

proof fn lemma_position_of_id<M>(history: Seq<OpView<M>>, id: Seq<char>)
    ensures
        -1 <= position_of_id(history, id) < history.len(),
        position_of_id(history, id) >= 0 ==> history[position_of_id(history, id)].id == id,
        position_of_id(history, id) < 0 <==> forall|j: int|
            0 <= j < history.len() ==> #[trigger] history[j].id != id,
    decreases history.len(),
{
    if history.len() > 0 {
        lemma_position_of_id(history.drop_last(), id);
        if history.last().id != id {
            assert forall|j: int| 0 <= j < history.len() - 1 implies #[trigger] history[j].id
                == history.drop_last()[j].id by {}
        }
    }
}

/// A ledger entry: an account's name and balance.
pub type LedgerEntry<M> = (Seq<char>, M);

/// Whether `op` concerns the account named `name`: as its source, or as
/// the target of a transfer.
pub open spec fn involves<M>(op: OpView<M>, name: Seq<char>) -> bool {
    op.source == name || op.kind == OpKind::Transfer(name)
}

/// Whether `id` is a ULID's text that no operation of `history` has.
pub open spec fn fresh_in<M>(history: Seq<OpView<M>>, id: Seq<char>) -> bool {
    id.len() == 26 && position_of_id(history, id) < 0
}

/// Whether every id of `history` is `last` or comes before it (so there is
/// a `last` unless the history is empty).
pub open spec fn ids_up_to<M>(history: Seq<OpView<M>>, last: Option<Seq<char>>) -> bool {
    forall|j: int|
        0 <= j < history.len() ==> (last matches Some(p) && id_at_most(#[trigger] history[j].id, p))
}

/// The ids of the operations of `history` that involve `name`, in order.
pub open spec fn ids_involving<M>(history: Seq<OpView<M>>, name: Seq<char>) -> Seq<Seq<char>>
    decreases history.len(),
{
    if history.len() == 0 {
        Seq::empty()
    } else {
        let earlier = ids_involving(history.drop_last(), name);
        if involves(history.last(), name) {
            earlier.push(history.last().id)
        } else {
            earlier
        }
    }
}

proof fn lemma_ids_involving_push<M>(history: Seq<OpView<M>>, op: OpView<M>)
    ensures
        forall|name: Seq<char>|
            #[trigger] ids_involving(history.push(op), name) == if involves(op, name) {
                ids_involving(history, name).push(op.id)
            } else {
                ids_involving(history, name)
            },
{
    assert(history.push(op).drop_last() =~= history);
}

/// Every id that `ids_involving` lists is the id of an operation of the
/// history.
proof fn lemma_ids_involving_recorded<M>(history: Seq<OpView<M>>, name: Seq<char>)
    ensures
        forall|i: int|
            0 <= i < ids_involving(history, name).len() ==> position_of_id(
                history,
                #[trigger] ids_involving(history, name)[i],
            ) >= 0,
    decreases history.len(),
{
    if history.len() > 0 {
        let earlier = history.drop_last();
        let last = history.last();
        lemma_ids_involving_recorded(earlier, name);
        lemma_ids_involving_push(earlier, last);
        assert(history =~= earlier.push(last));
        lemma_position_of_last(earlier, last);
        assert forall|i: int| 0 <= i < ids_involving(history, name).len() implies position_of_id(
            history,
            #[trigger] ids_involving(history, name)[i],
        ) >= 0 by {
            if i < ids_involving(earlier, name).len() {
                assert(ids_involving(history, name)[i] == ids_involving(earlier, name)[i]);
            }
        }
    }
}

/// The names of the accounts of a ledger.
pub open spec fn names_of<M>(ledger: Seq<LedgerEntry<M>>) -> Seq<Seq<char>> {
    ledger.map_values(|e: LedgerEntry<M>| e.0)
}

struct AccountEntry<M> {
    name: String,
    balance: M,
    operations: Vec<String>,
}

pub struct Bank<M> {
    accounts: Vec<AccountEntry<M>>,
    history: Vec<Operation<M>>,
    ulid_generator: IdSource,
    zero: M,
}

/// What a bank does: opening accounts, moving money, and telling balances
/// and histories.
pub trait BankTrait<M>: Sized {
    /// Whether the bank's records hang together; every bank made by `new`
    /// and changed through these operations does.
    spec fn well_formed(&self) -> bool;

    /// Whether depositing `amount` into `account` stays within the amount
    /// type, where the deposit would be made.
    spec fn deposit_fits(&self, account: Seq<char>, amount: M) -> bool;

    /// Whether withdrawing `amount` from `account` stays within the amount
    /// type, where the withdrawal would be made.
    spec fn withdrawal_fits(&self, account: Seq<char>, amount: M) -> bool;

    /// Whether moving `amount` from `sender` to `receiver` stays within the
    /// amount type, where the transfer would be made.
    spec fn transfer_fits(&self, sender: Seq<char>, receiver: Seq<char>, amount: M) -> bool;

    /// Whether a new bank takes every operation of `log` in turn.
    spec fn replayable(log: Seq<OpView<M>>) -> bool;

    fn create_account(&mut self, account: &str) -> (r: Result<TransactionId, BankError<M>>)
        requires
            old(self).well_formed(),
        ensures
            final(self).well_formed(),
    ;

    fn deposit(&mut self, account: &str, amount: M) -> (r: Result<TransactionId, BankError<M>>)
        requires
            old(self).well_formed(),
            old(self).deposit_fits(account@, amount),
        ensures
            final(self).well_formed(),
    ;

    fn withdraw(&mut self, account: &str, amount: M) -> (r: Result<TransactionId, BankError<M>>)
        requires
            old(self).well_formed(),
            old(self).withdrawal_fits(account@, amount),
        ensures
            final(self).well_formed(),
    ;

    fn transfer(&mut self, sender_account: &str, receiver_account: &str, amount: M) -> (r: Result<
        TransactionId,
        BankError<M>,
    >)
        requires
            old(self).well_formed(),
            old(self).transfer_fits(sender_account@, receiver_account@, amount),
        ensures
            final(self).well_formed(),
    ;

    fn get_balance(&self, account: &str) -> (r: Result<M, BankError<M>>)
        requires
            self.well_formed(),
    ;

    fn get_history(&self) -> (r: Result<Vec<Operation<M>>, BankError<M>>);

    fn get_account_history(&self, account: &str) -> (r: Result<Vec<&Operation<M>>, BankError<M>>)
        requires
            self.well_formed(),
    ;

    fn replay_history(operations_log: &[Operation<M>]) -> (bank: Self)
        requires
            Self::replayable(operations_log@.map_values(|op: Operation<M>| op_view(op))),
        ensures
            bank.well_formed(),
    ;

    fn get_operation_by_id(&self, id: &TransactionId) -> (r: Option<&Operation<M>>);
}

impl<M> Bank<M> {
    /// The accounts' names and balances, in order of creation.
    pub closed spec fn ledger(&self) -> Seq<LedgerEntry<M>> {
        self.accounts@.map_values(|a: AccountEntry<M>| (a.name@, a.balance))
    }

    /// For each account, the ids of its operations, in order.
    pub closed spec fn account_ops(&self) -> Seq<Seq<Seq<char>>> {
        self.accounts@.map_values(|a: AccountEntry<M>| a.operations@.map_values(|s: String| s@))
    }

    /// Every operation, in the order it was made.
    pub closed spec fn history(&self) -> Seq<OpView<M>> {
        self.history@.map_values(|op: Operation<M>| op_view(op))
    }

    /// The balance of a new account.
    pub closed spec fn zero(&self) -> M {
        self.zero
    }

    /// No two accounts share a name; each account lists the ids of the
    /// operations that involve it, in the order they were made; and no
    /// operation involves a name that is not an account's.
    pub closed spec fn inv(&self) -> bool {
        &&& self.account_ops().len() == self.ledger().len()
        &&& forall|i: int, j: int|
            0 <= i < j < self.ledger().len() ==> self.ledger()[i].0 != self.ledger()[j].0
        &&& forall|a: int|
            0 <= a < self.ledger().len() ==> #[trigger] self.account_ops()[a] == ids_involving(
                self.history(),
                self.ledger()[a].0,
            )
        &&& forall|name: Seq<char>|
            position(names_of(self.ledger()), name) < 0 ==> #[trigger] ids_involving(
                self.history(),
                name,
            ) == Seq::<Seq<char>>::empty()
        &&& ids_up_to(self.history(), self.last_id())
    }

    /// The last id that the bank's generator issued, if any.
    pub closed spec fn last_id(&self) -> Option<Seq<char>> {
        self.ulid_generator.last_issued()
    }

    /// How many times the bank's generator refused to issue an id.
    pub closed spec fn id_refusals(&self) -> nat {
        self.ulid_generator.refusals()
    }

    /// The position of the account named `name`, or -1.
    pub open spec fn account_position(&self, name: Seq<char>) -> int {
        position(names_of(self.ledger()), name)
    }
}

/// Whether two banks hold the same accounts, operations and zero.
pub open spec fn same_records<M>(a: Bank<M>, b: Bank<M>) -> bool {
    &&& a.ledger() == b.ledger()
    &&& a.account_ops() == b.account_ops()
    &&& a.history() == b.history()
    &&& a.zero() == b.zero()
}

/// The operation lists after recording `id` for the account at `s` and, for
/// a transfer, for the account at `t` too.
pub open spec fn ops_recorded(
    ops: Seq<Seq<Seq<char>>>,
    s: int,
    t: Option<int>,
    id: Seq<char>,
) -> Seq<Seq<Seq<char>>> {
    let a = ops.update(s, ops[s].push(id));
    match t {
        Some(t) => a.update(t, a[t].push(id)),
        None => a,
    }
}

proof fn lemma_position_of_last<M>(history: Seq<OpView<M>>, op: OpView<M>)
    ensures
        position_of_id(history.push(op), op.id) == history.len(),
        forall|id: Seq<char>|
            position_of_id(history, id) >= 0 ==> #[trigger] position_of_id(history.push(op), id)
                >= 0,
{
    assert(history.push(op).drop_last() =~= history);
    assert forall|id: Seq<char>| position_of_id(history, id) >= 0 implies #[trigger] position_of_id(
        history.push(op),
        id,
    ) >= 0 by {
        if op.id != id {
        }
    }
}

impl<M: Copy + PartialOrd + Add<Output = M> + Sub<Output = M> + Default> Bank<M> {
    /// An empty bank.
    pub fn new() -> (bank: Self)
        ensures
            bank.inv(),
            bank.ledger() == Seq::<LedgerEntry<M>>::empty(),
            bank.account_ops() == Seq::<Seq<Seq<char>>>::empty(),
            bank.history() == Seq::<OpView<M>>::empty(),
            call_ensures(M::default, (), bank.zero()),
            bank.consistent(),
            bank.id_refusals() == 0,
    {
        let zero = M::default();
        let bank = Bank {
            accounts: Vec::new(),
            history: Vec::new(),
            ulid_generator: IdSource::new(),
            zero,
        };
        assert(bank.ledger() =~= Seq::<LedgerEntry<M>>::empty());
        assert(bank.account_ops() =~= Seq::<Seq<Seq<char>>>::empty());
        assert(bank.history() =~= Seq::<OpView<M>>::empty());
        bank
    }

    /// The position of the account named `name`, if it exists.
    fn find_account(&self, name: &str) -> (k: Option<usize>)
        requires
            self.inv(),
        ensures
            k matches Some(i) ==> i == self.account_position(name@) && i < self.ledger().len(),
            k is None ==> self.account_position(name@) < 0,
    {
        proof {
            lemma_position(names_of(self.ledger()), name@);
        }
        let mut i: usize = self.accounts.len();
        while i > 0
            invariant
                0 <= i <= self.accounts@.len(),
                self.ledger() == self.accounts@.map_values(
                    |a: AccountEntry<M>| (a.name@, a.balance),
                ),
                forall|j: int| i <= j < self.ledger().len() ==> self.ledger()[j].0 != name@,
            decreases i,
        {
            assert(self.ledger()[i - 1].0 == self.accounts@[i - 1].name@);
            if same_text(self.accounts[i - 1].name.as_str(), name) {
                proof {
                    let names = names_of(self.ledger());
                    assert(names[i - 1] == name@);
                    assert forall|j: int| i - 1 < j < names.len() implies names[j] != name@ by {
                        assert(names[j] == self.ledger()[j].0);
                    }
                    lemma_position_last(names, name@, i - 1);
                }
                return Some(i - 1);
            }
            i = i - 1;
        }
        proof {
            let names = names_of(self.ledger());
            if names.contains(name@) {
                let j = choose|j: int| 0 <= j < names.len() && names[j] == name@;
                assert(self.ledger()[j].0 == name@);
            }
        }
        None
    }

    /// A new id from the bank's generator, one that no recorded operation
    /// has; `None` when the generator cannot issue one.
    fn fresh_id(&mut self) -> (id: Option<String>)
        requires
            old(self).inv(),
        ensures
            final(self).inv(),
            same_records(*old(self), *final(self)),
            match id {
                Some(s) => {
                    &&& fresh_in(old(self).history(), s@)
                    &&& final(self).last_id() == Some(s@)
                    &&& final(self).id_refusals() == old(self).id_refusals()
                },
                None => {
                    &&& final(self).last_id() == old(self).last_id()
                    &&& final(self).id_refusals() == old(self).id_refusals() + 1
                },
            },
    {
        let ghost before = *self;
        let id = self.ulid_generator.next_id();
        assert(self.ledger() == before.ledger());
        assert(self.account_ops() == before.account_ops());
        assert(self.history() == before.history());
        proof {
            let h = before.history();
            if id is Some {
                let n = id->0@;
                assert forall|j: int| 0 <= j < h.len() implies #[trigger] h[j].id != n && id_at_most(h[j].id, n) by {
                    let p = before.last_id()->0;
                    assert(id_at_most(h[j].id, p));
                    if h[j].id != p {
                        lemma_id_less_transitive(h[j].id, p, n);
                    }
                    lemma_id_less_irreflexive(n);
                }
                lemma_position_of_id(h, n);
            }
        }
        id
    }

    /// Records `operation`: its id joins the operations of its account and,
    /// for a transfer, of the receiving account; the operation joins the
    /// history. Refused when either account does not exist.
    fn push_transaction(&mut self, operation: Operation<M>) -> (r: Result<(), BankError<M>>)
        requires
            old(self).inv(),
            operation.operation_type matches OperationType::Transfer { target_account }
                ==> target_account@ != operation.source_account@,
            old(self).last_id() == Some(operation.id@),
            position_of_id(old(self).history(), operation.id@) < 0,
        ensures
            final(self).inv(),
            final(self).last_id() == old(self).last_id(),
            final(self).id_refusals() == old(self).id_refusals(),
            r is Ok ==> position_of_id(final(self).history(), operation.id@) == old(
                self,
            ).history().len(),
            r is Ok ==> forall|name: Seq<char>|
                #[trigger] looked_up(final(self).history(), ids_involving(final(self).history(), name))
                    == if involves(op_view(operation), name) {
                    looked_up(old(self).history(), ids_involving(old(self).history(), name)).push(
                        op_view(operation),
                    )
                } else {
                    looked_up(old(self).history(), ids_involving(old(self).history(), name))
                },
            final(self).zero() == old(self).zero(),
            final(self).ledger() == old(self).ledger(),
            old(self).account_position(operation.source_account@) < 0 ==> (r matches Err(e)
                && is_not_found(e, operation.source_account@) && same_records(
                *old(self),
                *final(self),
            )),
            old(self).account_position(operation.source_account@) >= 0 ==> match operation.operation_type {
                OperationType::Transfer { target_account } => if old(self).account_position(
                    target_account@,
                ) < 0 {
                    (r matches Err(e) && is_not_found(e, target_account@) && same_records(
                        *old(self),
                        *final(self),
                    ))
                } else {
                    &&& r is Ok
                    &&& final(self).history() == old(self).history().push(op_view(operation))
                    &&& final(self).account_ops() == ops_recorded(
                        old(self).account_ops(),
                        old(self).account_position(operation.source_account@),
                        Some(old(self).account_position(target_account@)),
                        operation.id@,
                    )
                },
                _ => {
                    &&& r is Ok
                    &&& final(self).history() == old(self).history().push(op_view(operation))
                    &&& final(self).account_ops() == ops_recorded(
                        old(self).account_ops(),
                        old(self).account_position(operation.source_account@),
                        None,
                        operation.id@,
                    )
                },
            },
    {
        let s = match self.find_account(operation.source_account.as_str()) {
            None => {
                return Err(BankError::account_not_found(operation.source_account));
            },
            Some(s) => s,
        };
        let target = match &operation.operation_type {
            OperationType::Transfer { target_account } => match self.find_account(
                target_account.as_str(),
            ) {
                None => {
                    return Err(BankError::account_not_found(target_account.clone()));
                },
                Some(t) => Some(t),
            },
            _ => None,
        };
        let ghost old_ops = self.account_ops();
        let ghost old_history = self.history();
        let ghost old_ledger = self.ledger();
        let ghost op = op_view(operation);
        let id_for_source = operation.id.clone();
        let id_for_target = operation.id.clone();
        self.history.push(operation);
        assert(self.history() =~= old_history.push(op));
        proof {
            lemma_position_of_last(old_history, op);
        }
        let ghost before = self.accounts@;
        assert(id_for_source@ == op.id);
        self.accounts[s].operations.push(id_for_source);
        assert(self.accounts@ == before.update(s as int, self.accounts@[s as int]));
        assert(self.accounts@[s as int].operations@.map_values(|x: String| x@) =~= old_ops[s as int].push(
            op.id,
        ));
        assert(self.ledger() =~= old_ledger);
        assert(self.account_ops() =~= old_ops.update(s as int, old_ops[s as int].push(op.id)));
        let ghost mid_ops = self.account_ops();
        match target {
            Some(t) => {
                let ghost before = self.accounts@;
                assert(id_for_target@ == op.id);
                self.accounts[t].operations.push(id_for_target);
                assert(self.accounts@ == before.update(t as int, self.accounts@[t as int]));
                assert(self.accounts@[t as int].operations@.map_values(|x: String| x@)
                    =~= mid_ops[t as int].push(op.id));
                assert(self.ledger() =~= old_ledger);
                assert(self.account_ops() =~= mid_ops.update(t as int, mid_ops[t as int].push(op.id)));
            },
            None => {},
        }
        proof {
            lemma_ids_involving_push(old_history, op);
            let names = names_of(old_ledger);
            lemma_position(names, op.source);
            assert forall|a: int| 0 <= a < self.ledger().len() implies #[trigger] self.account_ops()[a]
                == ids_involving(self.history(), self.ledger()[a].0) by {
                assert(names[a] == old_ledger[a].0);
                assert(names[s as int] == old_ledger[s as int].0);
                if let OpKind::Transfer(tn) = op.kind {
                    lemma_position(names, tn);
                }
            }
            assert forall|name: Seq<char>| position(names_of(self.ledger()), name) < 0 implies #[trigger] ids_involving(
                self.history(),
                name,
            ) == Seq::<Seq<char>>::empty() by {
                lemma_position(names, name);
                if let OpKind::Transfer(tn) = op.kind {
                    lemma_position(names, tn);
                }
            }
            assert forall|j: int| 0 <= j < self.history().len() implies (self.last_id() matches Some(
                p,
            ) && id_at_most(#[trigger] self.history()[j].id, p)) by {
                if j < old_history.len() {
                    assert(self.history()[j] == old_history[j]);
                }
            }
            assert forall|name: Seq<char>|
                #[trigger] looked_up(self.history(), ids_involving(self.history(), name))
                    == if involves(op, name) {
                    looked_up(old_history, ids_involving(old_history, name)).push(op)
                } else {
                    looked_up(old_history, ids_involving(old_history, name))
                } by {
                lemma_recorded_operation_found(old_history, op, name);
            }
        }
        Ok(())
    }
}

/// The last position holding `name`, when no later one does, is `position`.
proof fn lemma_position_last(names: Seq<Seq<char>>, name: Seq<char>, k: int)
    requires
        0 <= k < names.len(),
        names[k] == name,
        forall|j: int| k < j < names.len() ==> names[j] != name,
    ensures
        position(names, name) == k,
    decreases names.len(),
{
    if k < names.len() - 1 {
        lemma_position_last(names.drop_last(), name, k);
    }
}


/// The ledger with the balance at position `k` replaced by `balance`.
pub open spec fn with_balance<M>(ledger: Seq<LedgerEntry<M>>, k: int, balance: M) -> Seq<
    LedgerEntry<M>,
> {
    ledger.update(k, (ledger[k].0, balance))
}

/// Whether a bank whose accounts are `ledger`, and whose new accounts open
/// at `zero`, takes `op`.
pub open spec fn accepts<M: PartialOrd + Add<Output = M> + Sub<Output = M>>(
    ledger: Seq<LedgerEntry<M>>,
    zero: M,
    op: OpView<M>,
) -> bool {
    let s = position(names_of(ledger), op.source);
    match op.kind {
        OpKind::CreateAccount => s < 0,
        OpKind::Deposit => s >= 0 && !op.amount.is_le(&zero) && ledger[s].1.add_req(op.amount),
        OpKind::Withdraw => {
            &&& s >= 0 && !op.amount.is_le(&zero) && !ledger[s].1.is_lt(&op.amount)
            &&& ledger[s].1.sub_req(op.amount)
        },
        OpKind::Transfer(target) => {
            let t = position(names_of(ledger), target);
            &&& s >= 0 && t >= 0 && op.source != target
            &&& !op.amount.is_le(&zero) && !ledger[s].1.is_lt(&op.amount)
            &&& ledger[s].1.sub_req(op.amount) && ledger[t].1.add_req(op.amount)
        },
    }
}

/// The accounts after `op` is made on `ledger`.
pub open spec fn applied<M: Add<Output = M> + Sub<Output = M>>(
    ledger: Seq<LedgerEntry<M>>,
    zero: M,
    op: OpView<M>,
) -> Seq<LedgerEntry<M>> {
    let s = position(names_of(ledger), op.source);
    match op.kind {
        OpKind::CreateAccount => ledger.push((op.source, zero)),
        OpKind::Deposit => with_balance(ledger, s, ledger[s].1.add_spec(op.amount)),
        OpKind::Withdraw => with_balance(ledger, s, ledger[s].1.sub_spec(op.amount)),
        OpKind::Transfer(target) => {
            let t = position(names_of(ledger), target);
            with_balance(
                with_balance(ledger, s, ledger[s].1.sub_spec(op.amount)),
                t,
                ledger[t].1.add_spec(op.amount),
            )
        },
    }
}

/// Whether a new bank, whose accounts open at `zero`, takes every operation
/// of `log` in turn.
pub open spec fn replays<M: PartialOrd + Add<Output = M> + Sub<Output = M>>(
    zero: M,
    log: Seq<OpView<M>>,
) -> bool
    decreases log.len(),
{
    log.len() == 0 || (replays(zero, log.drop_last()) && accepts(
        replayed(zero, log.drop_last()),
        zero,
        log.last(),
    ))
}

/// The accounts of a new bank, whose accounts open at `zero`, after the
/// operations of `log` are made on it in turn.
pub open spec fn replayed<M: Add<Output = M> + Sub<Output = M>>(
    zero: M,
    log: Seq<OpView<M>>,
) -> Seq<LedgerEntry<M>>
    decreases log.len(),
{
    if log.len() == 0 {
        Seq::empty()
    } else {
        applied(replayed(zero, log.drop_last()), zero, log.last())
    }
}

proof fn lemma_replay_push<M: PartialOrd + Add<Output = M> + Sub<Output = M>>(
    zero: M,
    log: Seq<OpView<M>>,
    op: OpView<M>,
)
    ensures
        replays(zero, log.push(op)) == (replays(zero, log) && accepts(replayed(zero, log), zero, op)),
        replayed(zero, log.push(op)) == applied(replayed(zero, log), zero, op),
{
    assert(log.push(op).drop_last() =~= log);
}

/// Whether `a` records what `b` records, perhaps under another id (and, for
/// the opening of an account, with another amount, which plays no part).
pub open spec fn same_but_id<M>(a: OpView<M>, b: OpView<M>) -> bool {
    &&& a.source == b.source
    &&& a.kind == b.kind
    &&& a.kind != OpKind::CreateAccount ==> a.amount == b.amount
}

/// Whether two histories record the same operations in the same order, but
/// perhaps under other ids.
pub open spec fn same_but_ids<M>(a: Seq<OpView<M>>, b: Seq<OpView<M>>) -> bool {
    &&& a.len() == b.len()
    &&& forall|i: int| 0 <= i < a.len() ==> same_but_id(#[trigger] a[i], b[i])
}

impl<M: PartialOrd + Add<Output = M> + Sub<Output = M>> Bank<M> {
    /// Whether the accounts are what the history, made in turn on a new
    /// bank, gives.
    pub open spec fn consistent(&self) -> bool {
        &&& replays(self.zero(), self.history())
        &&& replayed(self.zero(), self.history()) == self.ledger()
    }
}

impl<M: Copy + PartialOrd + Add<Output = M> + Sub<Output = M> + Default> Bank<M> {
    /// Records an operation for existing accounts (`s`, and `t` for a
    /// transfer), under a fresh id.
    fn record(&mut self, id: String, source: &str, amount: M, operation_type: OperationType)
        requires
            old(self).inv(),
            old(self).last_id() == Some(id@),
            position_of_id(old(self).history(), id@) < 0,
            old(self).account_position(source@) >= 0,
            operation_type matches OperationType::Transfer { target_account } ==> old(
                self,
            ).account_position(target_account@) >= 0 && target_account@ != source@,
        ensures
            final(self).inv(),
            final(self).zero() == old(self).zero(),
            final(self).last_id() == old(self).last_id(),
            final(self).id_refusals() == old(self).id_refusals(),
            final(self).ledger() == old(self).ledger(),
            final(self).history() == old(self).history().push(
                OpView { id: id@, source: source@, amount, kind: kind_view(operation_type) },
            ),
            final(self).account_ops() == ops_recorded(
                old(self).account_ops(),
                old(self).account_position(source@),
                match operation_type {
                    OperationType::Transfer { target_account } => Some(
                        old(self).account_position(target_account@),
                    ),
                    _ => None,
                },
                id@,
            ),
    {
        let operation = Operation {
            id,
            source_account: String::from_str(source),
            amount,
            operation_type,
        };
        let pushed = self.push_transaction(operation);
        assert(pushed is Ok);
    }

    /// Sets the balance of the account at `k`.
    fn set_balance(&mut self, k: usize, balance: M)
        requires
            old(self).inv(),
            k < old(self).ledger().len(),
        ensures
            final(self).inv(),
            final(self).zero() == old(self).zero(),
            final(self).ledger() == with_balance(old(self).ledger(), k as int, balance),
            final(self).history() == old(self).history(),
            final(self).last_id() == old(self).last_id(),
            final(self).id_refusals() == old(self).id_refusals(),
            final(self).account_ops() == old(self).account_ops(),
            forall|name: Seq<char>| #[trigger] final(self).account_position(name) == old(self).account_position(name),
    {
        let ghost before = self.accounts@;
        let ghost old_ledger = self.ledger();
        let ghost old_ops = self.account_ops();
        self.accounts[k].balance = balance;
        assert(self.accounts@ == before.update(k as int, self.accounts@[k as int]));
        assert(self.ledger() =~= with_balance(old_ledger, k as int, balance));
        assert(self.account_ops() =~= old_ops);
        assert(names_of(self.ledger()) =~= names_of(old_ledger));
        assert(self.history() == old(self).history());
        assert forall|a: int| 0 <= a < self.ledger().len() implies #[trigger] self.account_ops()[a]
            == ids_involving(self.history(), self.ledger()[a].0) by {
            assert(self.ledger()[a].0 == old_ledger[a].0);
        }
    }

}


/// The operations of `history` that the ids stand for, each found by its id
/// (the last one recorded under it).
pub open spec fn looked_up<M>(history: Seq<OpView<M>>, ids: Seq<Seq<char>>) -> Seq<OpView<M>> {
    ids.map_values(|id: Seq<char>| history[position_of_id(history, id)])
}

impl<M: Copy + PartialOrd + Add<Output = M> + Sub<Output = M> + Default> Bank<M> {

    /// The position of the last operation recorded under `id`, if any.
    fn find_operation(&self, id: &str) -> (k: Option<usize>)
        ensures
            k matches Some(i) ==> i == position_of_id(self.history(), id@) && i < self.history@.len()
                && self.history()[i as int] == op_view(self.history@[i as int]),
            k is None ==> position_of_id(self.history(), id@) < 0,
    {
        proof {
            lemma_position_of_id(self.history(), id@);
        }
        let mut i: usize = self.history.len();
        while i > 0
            invariant
                0 <= i <= self.history@.len(),
                self.history() == self.history@.map_values(|op: Operation<M>| op_view(op)),
                forall|j: int| i <= j < self.history().len() ==> #[trigger] self.history()[j].id != id@,
            decreases i,
        {
            assert(self.history()[i - 1].id == self.history@[i - 1].id@);
            if same_text(self.history[i - 1].id.as_str(), id) {
                proof {
                    lemma_position_of_id_last(self.history(), id@, i - 1);
                }
                return Some(i - 1);
            }
            i = i - 1;
        }
        None
    }

}

proof fn lemma_replays_prefix<M: PartialOrd + Add<Output = M> + Sub<Output = M>>(
    zero: M,
    log: Seq<OpView<M>>,
    i: int,
)
    requires
        replays(zero, log),
        0 <= i <= log.len(),
    ensures
        replays(zero, log.take(i)),
    decreases log.len(),
{
    if i < log.len() {
        assert(log.take(i) =~= log.drop_last().take(i));
        lemma_replays_prefix(zero, log.drop_last(), i);
    } else {
        assert(log.take(i) =~= log);
    }
}


/// Replaying a bank's history on a new bank gives its accounts and
/// balances again: two banks whose accounts are what their histories give,
/// which open accounts at the same zero, and whose histories differ only in
/// their ids, hold the same accounts with the same balances.
pub proof fn lemma_replay_reproduces_ledger<M: PartialOrd + Add<Output = M> + Sub<Output = M>>(
    a: Bank<M>,
    b: Bank<M>,
)
    requires
        a.consistent(),
        b.consistent(),
        a.zero() == b.zero(),
        same_but_ids(a.history(), b.history()),
    ensures
        a.ledger() == b.ledger(),
{
    lemma_replayed_ignores_ids(a.zero(), a.history(), b.history());
}

/// What a replay gives does not depend on the operations' ids.
proof fn lemma_replayed_ignores_ids<M: PartialOrd + Add<Output = M> + Sub<Output = M>>(
    zero: M,
    a: Seq<OpView<M>>,
    b: Seq<OpView<M>>,
)
    requires
        same_but_ids(a, b),
    ensures
        replays(zero, a) == replays(zero, b),
        replayed(zero, a) == replayed(zero, b),
    decreases a.len(),
{
    if a.len() > 0 {
        assert forall|i: int| 0 <= i < a.drop_last().len() implies same_but_id(
            #[trigger] a.drop_last()[i],
            b.drop_last()[i],
        ) by {
            assert(same_but_id(a[i], b[i]));
        }
        lemma_replayed_ignores_ids(zero, a.drop_last(), b.drop_last());
        assert(same_but_id(a[a.len() - 1], b[b.len() - 1]));
    }
}

/// An operation recorded under a fresh id is what a lookup of that id
/// finds; and it joins, at the end, the operations listed for each account
/// it involves, every other account's list staying as it was.
pub proof fn lemma_recorded_operation_found<M>(
    history: Seq<OpView<M>>,
    op: OpView<M>,
    name: Seq<char>,
)
    requires
        position_of_id(history, op.id) < 0,
    ensures
        position_of_id(history.push(op), op.id) == history.len(),
        history.push(op)[history.len() as int] == op,
        looked_up(history.push(op), ids_involving(history.push(op), name)) == if involves(op, name) {
            looked_up(history, ids_involving(history, name)).push(op)
        } else {
            looked_up(history, ids_involving(history, name))
        },
{
    let longer = history.push(op);
    lemma_position_of_last(history, op);
    lemma_ids_involving_push(history, op);
    lemma_ids_involving_recorded(history, name);
    lemma_position_of_id(history, op.id);
    assert(longer.drop_last() =~= history);
    let ids = ids_involving(history, name);
    assert forall|i: int| 0 <= i < ids.len() implies #[trigger] looked_up(longer, ids)[i]
        == looked_up(history, ids)[i] by {
        let id = ids[i];
        lemma_position_of_id(history, id);
        let p = position_of_id(history, id);
        assert(history[p].id == id);
        assert(id != op.id);
        assert(position_of_id(longer, id) == p);
        assert(longer[p] == history[p]);
    }
    if involves(op, name) {
        assert forall|i: int| 0 <= i <= ids.len() implies #[trigger] looked_up(longer, ids.push(op.id))[i]
            == looked_up(history, ids).push(op)[i] by {
            if i < ids.len() {
                assert(ids.push(op.id)[i] == ids[i]);
                assert(looked_up(longer, ids)[i] == looked_up(history, ids)[i]);
            }
        }
        assert(looked_up(longer, ids.push(op.id)) =~= looked_up(history, ids).push(op));
    } else {
        assert(looked_up(longer, ids) =~= looked_up(history, ids));
    }
}

/// The sum of the balances of a ledger of whole amounts.
pub open spec fn total(ledger: Seq<LedgerEntry<i64>>) -> int
    decreases ledger.len(),
{
    if ledger.len() == 0 {
        0
    } else {
        total(ledger.drop_last()) + ledger.last().1
    }
}

/// The money that an operation brings into the bank (taken out, when
/// negative): a deposit brings its amount, a withdrawal takes it, and
/// opening an account or moving money between accounts changes nothing.
pub open spec fn net_inflow(op: OpView<i64>) -> int {
    match op.kind {
        OpKind::Deposit => op.amount as int,
        OpKind::Withdraw => -op.amount,
        _ => 0,
    }
}

proof fn lemma_total_with_balance(ledger: Seq<LedgerEntry<i64>>, k: int, balance: i64)
    requires
        0 <= k < ledger.len(),
    ensures
        total(with_balance(ledger, k, balance)) == total(ledger) - ledger[k].1 + balance,
    decreases ledger.len(),
{
    let updated = with_balance(ledger, k, balance);
    if k < ledger.len() - 1 {
        assert(updated.drop_last() =~= with_balance(ledger.drop_last(), k, balance));
        lemma_total_with_balance(ledger.drop_last(), k, balance);
    } else {
        assert(updated.drop_last() =~= ledger.drop_last());
    }
}

/// With whole amounts, money only comes in by deposits and goes out by
/// withdrawals: an operation that the bank takes changes the sum of the
/// balances by its net inflow, so a transfer keeps it.
pub proof fn lemma_money_only_moves(ledger: Seq<LedgerEntry<i64>>, op: OpView<i64>)
    requires
        accepts(ledger, 0i64, op),
    ensures
        total(applied(ledger, 0i64, op)) == total(ledger) + net_inflow(op),
{
    let s = position(names_of(ledger), op.source);
    lemma_position(names_of(ledger), op.source);
    match op.kind {
        OpKind::CreateAccount => {
            assert(ledger.push((op.source, 0i64)).drop_last() =~= ledger);
        },
        OpKind::Deposit => {
            lemma_total_with_balance(ledger, s, (ledger[s].1 + op.amount) as i64);
        },
        OpKind::Withdraw => {
            lemma_total_with_balance(ledger, s, (ledger[s].1 - op.amount) as i64);
        },
        OpKind::Transfer(target) => {
            let t = position(names_of(ledger), target);
            lemma_position(names_of(ledger), op.source);
            lemma_position(names_of(ledger), target);
            let first = with_balance(ledger, s, (ledger[s].1 - op.amount) as i64);
            lemma_total_with_balance(ledger, s, (ledger[s].1 - op.amount) as i64);
            lemma_total_with_balance(first, t, (ledger[t].1 + op.amount) as i64);
        },
    }
}

/// The last position holding `id`, when no later one does, is `position_of_id`.
proof fn lemma_position_of_id_last<M>(history: Seq<OpView<M>>, id: Seq<char>, k: int)
    requires
        0 <= k < history.len(),
        history[k].id == id,
        forall|j: int| k < j < history.len() ==> #[trigger] history[j].id != id,
    ensures
        position_of_id(history, id) == k,
    decreases history.len(),
{
    if k < history.len() - 1 {
        assert forall|j: int| k < j < history.len() - 1 implies #[trigger] history.drop_last()[j].id != id by {
            assert(history.drop_last()[j] == history[j]);
        }
        lemma_position_of_id_last(history.drop_last(), id, k);
    }
}

impl<M: Copy + PartialOrd + Add<Output = M> + Sub<Output = M> + Default> BankTrait<M> for Bank<M> {
    open spec fn well_formed(&self) -> bool {
        self.inv()
    }

    open spec fn deposit_fits(&self, account: Seq<char>, amount: M) -> bool {
        let k = self.account_position(account);
        k >= 0 && !(M::obeys_partial_cmp_spec() && amount.is_le(&self.zero())) ==> self.ledger()[k].1.add_req(
            amount,
        )
    }

    open spec fn withdrawal_fits(&self, account: Seq<char>, amount: M) -> bool {
        let k = self.account_position(account);
        let balance = self.ledger()[k].1;
        k >= 0 && !(M::obeys_partial_cmp_spec() && (amount.is_le(&self.zero()) || balance.is_lt(
            &amount,
        ))) ==> balance.sub_req(amount)
    }

    open spec fn transfer_fits(&self, sender: Seq<char>, receiver: Seq<char>, amount: M) -> bool {
        let s = self.account_position(sender);
        let t = self.account_position(receiver);
        let balance = self.ledger()[s].1;
        s >= 0 && t >= 0 && s != t && !(M::obeys_partial_cmp_spec() && (amount.is_le(&self.zero())
            || balance.is_lt(&amount))) ==> balance.sub_req(amount) && self.ledger()[t].1.add_req(
            amount,
        )
    }

    open spec fn replayable(log: Seq<OpView<M>>) -> bool {
        &&& money_laws::<M>()
        &&& forall|zero: M| call_ensures(M::default, (), zero) ==> replays(zero, log)
    }

    /// Opens an account named `account` with a zero balance. Refused when
    /// an account of that name exists.
    fn create_account(&mut self, account: &str) -> (r: Result<TransactionId, BankError<M>>)
        ensures
            final(self).inv(),
            final(self).zero() == old(self).zero(),
            final(self).id_refusals() == old(self).id_refusals() + if r matches Err(
                BankError::IdUnavailable(_),
            ) {
                1nat
            } else {
                0nat
            },
            old(self).consistent() ==> final(self).consistent(),
            old(self).account_position(account@) >= 0 ==> (r matches Err(
                BankError::AccountDuplication(e),
            ) && e.account@ == account@ && same_records(*old(self), *final(self))),
            old(self).account_position(account@) < 0 ==> ((r matches Err(
                BankError::IdUnavailable(e),
            ) && e.account@ == account@ && same_records(*old(self), *final(self))) || (r matches Ok(
                id,
            ) && {
                &&& fresh_in(old(self).history(), id@)
                &&& final(self).ledger() == old(self).ledger().push((account@, old(self).zero()))
                &&& final(self).account_ops() == old(self).account_ops().push(seq![id@])
                &&& final(self).history() == old(self).history().push(
                    OpView { id: id@, source: account@, amount: old(self).zero(), kind: OpKind::CreateAccount },
                )
            })),
    {
        if self.find_account(account).is_some() {
            return Err(AccountDuplicationError { account: String::from_str(account) }.into());
        }
        let next_id = match self.fresh_id() {
            Some(id) => id,
            None => {
                return Err(IdUnavailableError { account: String::from_str(account) }.into());
            },
        };
        let ghost old_ledger = self.ledger();
        let ghost old_ops = self.account_ops();
        let ghost old_history = self.history();
        assert(old_ledger == old(self).ledger());
        assert(old_ops == old(self).account_ops());
        assert(old_history == old(self).history());
        proof {
            lemma_position(names_of(old_ledger), account@);
        }
        let ghost last = self.last_id();
        self.accounts.push(AccountEntry { name: String::from_str(account), balance: self.zero, operations: Vec::new() });
        assert(self.history() == old_history);
        assert(self.last_id() == last);
        assert(self.ledger() =~= old_ledger.push((account@, self.zero)));
        assert(self.accounts@.last().operations@.map_values(|x: String| x@) =~= Seq::<Seq<char>>::empty());
        assert(self.account_ops() =~= old_ops.push(Seq::<Seq<char>>::empty()));
        proof {
            let names = names_of(self.ledger());
            assert(names.drop_last() =~= names_of(old_ledger));
            assert forall|i: int, j: int|
                0 <= i < j < self.ledger().len() implies self.ledger()[i].0 != self.ledger()[j].0 by {
                if j == self.ledger().len() - 1 {
                    assert(names_of(old_ledger)[i] == old_ledger[i].0);
                }
            }
            assert forall|a: int| 0 <= a < self.ledger().len() implies #[trigger] self.account_ops()[a]
                == ids_involving(self.history(), self.ledger()[a].0) by {
                if a < old_ledger.len() {
                    assert(self.account_ops()[a] == old_ops[a]);
                    assert(self.ledger()[a] == old_ledger[a]);
                } else {
                    assert(ids_involving(old_history, account@) == Seq::<Seq<char>>::empty());
                }
            }
            assert forall|name: Seq<char>| position(names_of(self.ledger()), name) < 0 implies #[trigger] ids_involving(
                self.history(),
                name,
            ) == Seq::<Seq<char>>::empty() by {
                lemma_position(names_of(self.ledger()), name);
                lemma_position(names_of(old_ledger), name);
                if names_of(old_ledger).contains(name) {
                    let j = choose|j: int| 0 <= j < names_of(old_ledger).len() && names_of(old_ledger)[j] == name;
                    assert(names_of(self.ledger())[j] == name);
                }
                assert(ids_involving(old_history, name) == Seq::<Seq<char>>::empty());
            }
            lemma_position(names_of(self.ledger()), account@);
            assert(names_of(self.ledger())[old_ledger.len() as int] == account@);
        }
        let operation = Operation {
            id: next_id.clone(),
            source_account: String::from_str(account),
            amount: self.zero,
            operation_type: OperationType::CreateAccount,
        };
        let ghost k = old_ledger.len() as int;
        proof {
            lemma_position_last(names_of(self.ledger()), account@, k);
        }
        match self.push_transaction(operation) {
            Ok(()) => {},
            Err(e) => {
                return Err(e);
            },
        }
        assert(self.account_ops() =~= old_ops.push(seq![next_id@]));
        proof {
            lemma_replay_push(
                old(self).zero(),
                old_history,
                OpView { id: next_id@, source: account@, amount: old(self).zero(), kind: OpKind::CreateAccount },
            );
        }
        Ok(next_id)
    }

    /// Adds `amount` to the balance of `account`. Refused when the account
    /// does not exist or the amount is not above zero.
    fn deposit(&mut self, account: &str, amount: M) -> (r: Result<TransactionId, BankError<M>>)
        ensures
            final(self).inv(),
            final(self).zero() == old(self).zero(),
            final(self).id_refusals() == old(self).id_refusals() + if r matches Err(
                BankError::IdUnavailable(_),
            ) {
                1nat
            } else {
                0nat
            },
            money_laws::<M>() && old(self).consistent() ==> final(self).consistent(),
            r is Err ==> same_records(*old(self), *final(self)),
            old(self).account_position(account@) < 0 ==> (r matches Err(e) && is_not_found(e, account@)),
            old(self).account_position(account@) >= 0 ==> ({
                let k = old(self).account_position(account@);
                &&& r is Err ==> ((r matches Err(BankError::AmountNegative(e)) && e.account@ == account@
                    && e.amount == amount) || (r matches Err(BankError::IdUnavailable(e))
                    && e.account@ == account@))
                &&& M::obeys_partial_cmp_spec() ==> ((r matches Err(BankError::AmountNegative(_)))
                    <==> amount.is_le(&old(self).zero()))
                &&& r matches Ok(id) ==> {
                    &&& fresh_in(old(self).history(), id@)
                    &&& final(self).ledger() == with_balance(old(self).ledger(), k, final(self).ledger()[k].1)
                    &&& M::obeys_add_spec() ==> final(self).ledger()[k].1 == old(self).ledger()[k].1.add_spec(amount)
                    &&& final(self).history() == old(self).history().push(
                        OpView { id: id@, source: account@, amount, kind: OpKind::Deposit },
                    )
                    &&& final(self).account_ops() == ops_recorded(old(self).account_ops(), k, None, id@)
                }
            }),
    {
        let k = match self.find_account(account) {
            None => {
                return Err(BankError::account_not_found(String::from_str(account)));
            },
            Some(k) => k,
        };
        if amount <= self.zero {
            return Err(AmountNegativeError { account: String::from_str(account), amount }.into());
        }
        let id = match self.fresh_id() {
            Some(id) => id,
            None => {
                return Err(IdUnavailableError { account: String::from_str(account) }.into());
            },
        };
        let balance = self.accounts[k].balance + amount;
        self.set_balance(k, balance);
        self.record(id.clone(), account, amount, OperationType::Deposit);
        proof {
            lemma_replay_push(
                old(self).zero(),
                old(self).history(),
                OpView { id: id@, source: account@, amount, kind: OpKind::Deposit },
            );
        }
        Ok(id)
    }

    /// Takes `amount` from the balance of `account`. Refused when the
    /// account does not exist, the amount is not above zero, or the balance
    /// is below the amount.
    fn withdraw(&mut self, account: &str, amount: M) -> (r: Result<TransactionId, BankError<M>>)
        ensures
            final(self).inv(),
            final(self).zero() == old(self).zero(),
            final(self).id_refusals() == old(self).id_refusals() + if r matches Err(
                BankError::IdUnavailable(_),
            ) {
                1nat
            } else {
                0nat
            },
            money_laws::<M>() && old(self).consistent() ==> final(self).consistent(),
            r is Err ==> same_records(*old(self), *final(self)),
            old(self).account_position(account@) < 0 ==> (r matches Err(e) && is_not_found(e, account@)),
            old(self).account_position(account@) >= 0 ==> ({
                let k = old(self).account_position(account@);
                let balance = old(self).ledger()[k].1;
                &&& r is Err ==> ((r matches Err(BankError::AmountNegative(e)) && e.account@ == account@
                    && e.amount == amount) || (r matches Err(BankError::InsufficientFunds(e))
                    && e.account@ == account@ && e.amount == amount && e.balance == balance) || (
                r matches Err(BankError::IdUnavailable(e)) && e.account@ == account@))
                &&& M::obeys_partial_cmp_spec() ==> {
                    &&& amount.is_le(&old(self).zero()) ==> (r matches Err(BankError::AmountNegative(_)))
                    &&& !amount.is_le(&old(self).zero()) && balance.is_lt(&amount) ==> (r matches Err(BankError::InsufficientFunds(_)))
                    &&& (r is Ok || (r matches Err(BankError::IdUnavailable(_)))) <==> (!amount.is_le(
                        &old(self).zero(),
                    ) && !balance.is_lt(&amount))
                }
                &&& r matches Ok(id) ==> {
                    &&& fresh_in(old(self).history(), id@)
                    &&& final(self).ledger() == with_balance(old(self).ledger(), k, final(self).ledger()[k].1)
                    &&& M::obeys_sub_spec() ==> final(self).ledger()[k].1 == balance.sub_spec(amount)
                    &&& final(self).history() == old(self).history().push(
                        OpView { id: id@, source: account@, amount, kind: OpKind::Withdraw },
                    )
                    &&& final(self).account_ops() == ops_recorded(old(self).account_ops(), k, None, id@)
                }
            }),
    {
        let k = match self.find_account(account) {
            None => {
                return Err(BankError::account_not_found(String::from_str(account)));
            },
            Some(k) => k,
        };
        let balance = self.accounts[k].balance;
        if amount <= self.zero {
            return Err(AmountNegativeError { account: String::from_str(account), amount }.into());
        } else if balance < amount {
            return Err(
                InsufficientFundsError { amount, account: String::from_str(account), balance }.into(),
            );
        }
        let id = match self.fresh_id() {
            Some(id) => id,
            None => {
                return Err(IdUnavailableError { account: String::from_str(account) }.into());
            },
        };
        self.set_balance(k, balance - amount);
        self.record(id.clone(), account, amount, OperationType::Withdraw);
        proof {
            lemma_replay_push(
                old(self).zero(),
                old(self).history(),
                OpView { id: id@, source: account@, amount, kind: OpKind::Withdraw },
            );
        }
        Ok(id)
    }

    /// Moves `amount` from `sender_account` to `receiver_account`. Refused
    /// when either account does not exist, they are the same account, the
    /// amount is not above zero, or the sender's balance is below it.
    fn transfer(&mut self, sender_account: &str, receiver_account: &str, amount: M) -> (r:
        Result<TransactionId, BankError<M>>)
        ensures
            final(self).inv(),
            final(self).zero() == old(self).zero(),
            final(self).id_refusals() == old(self).id_refusals() + if r matches Err(
                BankError::IdUnavailable(_),
            ) {
                1nat
            } else {
                0nat
            },
            money_laws::<M>() && old(self).consistent() ==> final(self).consistent(),
            r is Err ==> same_records(*old(self), *final(self)),
            ({
                let s = old(self).account_position(sender_account@);
                let t = old(self).account_position(receiver_account@);
                let balance = old(self).ledger()[s].1;
                &&& s < 0 ==> (r matches Err(e) && is_not_found(e, sender_account@))
                &&& s >= 0 && t < 0 ==> (r matches Err(e) && is_not_found(e, receiver_account@))
                &&& s >= 0 && t >= 0 && sender_account@ == receiver_account@ ==> (r matches Err(
                    BankError::SomeAccountTransfer(e),
                ) && e.account@ == sender_account@)
                &&& s >= 0 && t >= 0 && sender_account@ != receiver_account@ ==> {
                    &&& r is Err ==> ((r matches Err(BankError::AmountNegative(e)) && e.account@
                        == sender_account@ && e.amount == amount) || (r matches Err(
                        BankError::InsufficientFunds(e),
                    ) && e.account@ == sender_account@ && e.amount == amount && e.balance
                        == balance) || (r matches Err(BankError::IdUnavailable(e)) && e.account@
                        == sender_account@))
                    &&& M::obeys_partial_cmp_spec() ==> {
                        &&& amount.is_le(&old(self).zero()) ==> (r matches Err(BankError::AmountNegative(_)))
                        &&& !amount.is_le(&old(self).zero()) && balance.is_lt(&amount) ==> (r matches Err(BankError::InsufficientFunds(_)))
                        &&& (r is Ok || (r matches Err(BankError::IdUnavailable(_)))) <==> (
                        !amount.is_le(&old(self).zero()) && !balance.is_lt(&amount))
                    }
                    &&& r matches Ok(id) ==> {
                        &&& fresh_in(old(self).history(), id@)
                        &&& final(self).ledger() == with_balance(
                            with_balance(old(self).ledger(), s, final(self).ledger()[s].1),
                            t,
                            final(self).ledger()[t].1,
                        )
                        &&& M::obeys_sub_spec() ==> final(self).ledger()[s].1 == balance.sub_spec(amount)
                        &&& M::obeys_add_spec() ==> final(self).ledger()[t].1 == old(self).ledger()[t].1.add_spec(amount)
                        &&& final(self).history() == old(self).history().push(
                            OpView {
                                id: id@,
                                source: sender_account@,
                                amount,
                                kind: OpKind::Transfer(receiver_account@),
                            },
                        )
                        &&& final(self).account_ops() == ops_recorded(old(self).account_ops(), s, Some(t), id@)
                    }
                }
            }),
    {
        let s = match self.find_account(sender_account) {
            None => {
                return Err(BankError::account_not_found(String::from_str(sender_account)));
            },
            Some(s) => s,
        };
        let t = match self.find_account(receiver_account) {
            None => {
                return Err(BankError::account_not_found(String::from_str(receiver_account)));
            },
            Some(t) => t,
        };
        if same_text(sender_account, receiver_account) {
            return Err(SomeAccountTransferError { account: String::from_str(sender_account) }.into());
        }
        proof {
            lemma_position(names_of(self.ledger()), sender_account@);
            lemma_position(names_of(self.ledger()), receiver_account@);
        }
        let sender_balance = self.accounts[s].balance;
        let receiver_balance = self.accounts[t].balance;
        if amount <= self.zero {
            return Err(AmountNegativeError { amount, account: String::from_str(sender_account) }.into());
        } else if sender_balance < amount {
            return Err(
                InsufficientFundsError {
                    amount,
                    account: String::from_str(sender_account),
                    balance: sender_balance,
                }.into(),
            );
        }
        let id = match self.fresh_id() {
            Some(id) => id,
            None => {
                return Err(IdUnavailableError { account: String::from_str(sender_account) }.into());
            },
        };
        self.set_balance(s, sender_balance - amount);
        self.set_balance(t, receiver_balance + amount);
        self.record(
            id.clone(),
            sender_account,
            amount,
            OperationType::Transfer { target_account: String::from_str(receiver_account) },
        );
        proof {
            lemma_replay_push(
                old(self).zero(),
                old(self).history(),
                OpView {
                    id: id@,
                    source: sender_account@,
                    amount,
                    kind: OpKind::Transfer(receiver_account@),
                },
            );
        }
        Ok(id)
    }

    /// The balance of `account`.
    fn get_balance(&self, account: &str) -> (r: Result<M, BankError<M>>)
        ensures
            self.account_position(account@) < 0 ==> (r matches Err(e) && is_not_found(e, account@)),
            self.account_position(account@) >= 0 ==> r == Ok::<M, BankError<M>>(
                self.ledger()[self.account_position(account@)].1,
            ),
    {
        match self.find_account(account) {
            None => Err(BankError::account_not_found(String::from_str(account))),
            Some(k) => Ok(self.accounts[k].balance),
        }
    }

    /// Every operation, in the order it was made. Never refused.
    fn get_history(&self) -> (r: Result<Vec<Operation<M>>, BankError<M>>)
        ensures
            r matches Ok(v) && v@.map_values(|op: Operation<M>| op_view(op)) == self.history(),
    {
        let mut out: Vec<Operation<M>> = Vec::new();
        let mut i: usize = 0;
        while i < self.history.len()
            invariant
                i <= self.history@.len(),
                out@.len() == i,
                out@.map_values(|op: Operation<M>| op_view(op)) == self.history().take(i as int),
            decreases self.history@.len() - i,
        {
            let ghost before = out@;
            let c = self.history[i].clone();
            assert(op_view(c) == self.history()[i as int]);
            out.push(c);
            let ghost outv = out@.map_values(|op: Operation<M>| op_view(op));
            assert forall|j: int| 0 <= j <= i implies #[trigger] outv[j]
                == self.history().take(i + 1)[j] by {
                if j < i {
                    assert(out@[j] == before[j]);
                    assert(before.map_values(|op: Operation<M>| op_view(op))[j] == self.history().take(
                        i as int,
                    )[j]);
                }
            }
            assert(out@.map_values(|op: Operation<M>| op_view(op)) =~= self.history().take(i + 1));
            i = i + 1;
        }
        assert(self.history().take(i as int) =~= self.history());
        Ok(out)
    }

    /// The operations that involve `account`, in the order they were made.
    /// Refused when the account does not exist.
    fn get_account_history(&self, account: &str) -> (r: Result<Vec<&Operation<M>>, BankError<M>>)
        ensures
            self.account_position(account@) < 0 ==> (r matches Err(e) && is_not_found(e, account@)),
            self.account_position(account@) >= 0 ==> (r matches Ok(v) && v@.map_values(
                |op: &Operation<M>| op_view(*op),
            ) == looked_up(self.history(), ids_involving(self.history(), account@))),
    {
        let k = match self.find_account(account) {
            None => {
                return Err(BankError::account_not_found(String::from_str(account)));
            },
            Some(k) => k,
        };
        let ghost ids = self.account_ops()[k as int];
        proof {
            lemma_position(names_of(self.ledger()), account@);
            assert(names_of(self.ledger())[k as int] == self.ledger()[k as int].0);
            lemma_ids_involving_recorded(self.history(), account@);
        }
        let ops = &self.accounts[k].operations;
        assert(ops@.map_values(|x: String| x@) == ids);
        let mut out: Vec<&Operation<M>> = Vec::new();
        let mut i: usize = 0;
        while i < ops.len()
            invariant
                i <= ops@.len(),
                out@.len() == i,
                ids == ops@.map_values(|x: String| x@),
                ids == ids_involving(self.history(), account@),
                forall|j: int| 0 <= j < ids.len() ==> position_of_id(self.history(), #[trigger] ids[j]) >= 0,
                out@.map_values(|op: &Operation<M>| op_view(*op)) == looked_up(self.history(), ids.take(i as int)),
            decreases ops@.len() - i,
        {
            assert(ids[i as int] == ops@[i as int]@);
            let p = match self.find_operation(ops[i].as_str()) {
                Some(p) => p,
                None => {
                    assert(false);
                    return Ok(out);
                },
            };
            let ghost before = out@;
            out.push(&self.history[p]);
            let ghost outv = out@.map_values(|op: &Operation<M>| op_view(*op));
            assert forall|j: int| 0 <= j <= i implies #[trigger] outv[j]
                == looked_up(self.history(), ids.take(i + 1))[j] by {
                if j < i {
                    assert(out@[j] == before[j]);
                    assert(before.map_values(|op: &Operation<M>| op_view(*op))[j] == looked_up(
                        self.history(),
                        ids.take(i as int),
                    )[j]);
                }
            }
            assert(out@.map_values(|op: &Operation<M>| op_view(*op)) =~= looked_up(self.history(), ids.take(i + 1)));
            i = i + 1;
        }
        assert(ids.take(i as int) =~= ids);
        Ok(out)
    }

    /// A new bank on which the operations of `operations_log` are made in
    /// turn, each under a fresh id. Every operation must be taken; should
    /// the id generator fail, the replay stops there.
    fn replay_history(operations_log: &[Operation<M>]) -> (bank: Self)
        ensures
            bank.inv(),
            bank.consistent(),
            call_ensures(M::default, (), bank.zero()),
            bank.history().len() <= operations_log@.len(),
            bank.id_refusals() == if bank.history().len() < operations_log@.len() {
                1nat
            } else {
                0nat
            },
            bank.ledger() == replayed(
                bank.zero(),
                operations_log@.map_values(|op: Operation<M>| op_view(op)).take(
                    bank.history().len() as int,
                ),
            ),
            same_but_ids(
                bank.history(),
                operations_log@.map_values(|op: Operation<M>| op_view(op)).take(
                    bank.history().len() as int,
                ),
            ),
    {
        let mut bank = Bank::new();
        let ghost log = operations_log@.map_values(|op: Operation<M>| op_view(op));
        let ghost zero = bank.zero();
        assert(bank.history() =~= log.take(0));
        let mut i: usize = 0;
        while i < operations_log.len()
            invariant_except_break
                bank.id_refusals() == 0,
            invariant
                money_laws::<M>(),
                i <= operations_log@.len(),
                log == operations_log@.map_values(|op: Operation<M>| op_view(op)),
                bank.inv(),
                bank.consistent(),
                bank.zero() == zero,
                call_ensures(M::default, (), zero),
                replays(zero, log),
                bank.ledger() == replayed(zero, log.take(i as int)),
                same_but_ids(bank.history(), log.take(i as int)),
            ensures
                i <= operations_log@.len(),
                bank.id_refusals() == if i < operations_log@.len() {
                    1nat
                } else {
                    0nat
                },
                bank.inv(),
                bank.consistent(),
                bank.zero() == zero,
                bank.ledger() == replayed(zero, log.take(i as int)),
                same_but_ids(bank.history(), log.take(i as int)),
            decreases operations_log@.len() - i,
        {
            let op = &operations_log[i];
            let ghost opv = op_view(*op);
            proof {
                lemma_replays_prefix(zero, log, i + 1);
                assert(log.take(i + 1) =~= log.take(i as int).push(opv));
                lemma_replay_push(zero, log.take(i as int), opv);
            }
            let ghost before = bank.history();
            let taken = match &op.operation_type {
                OperationType::CreateAccount => bank.create_account(op.source_account.as_str()).is_ok(),
                OperationType::Deposit => bank.deposit(op.source_account.as_str(), op.amount).is_ok(),
                OperationType::Withdraw => bank.withdraw(op.source_account.as_str(), op.amount).is_ok(),
                OperationType::Transfer { target_account } => bank.transfer(
                    op.source_account.as_str(),
                    target_account.as_str(),
                    op.amount,
                ).is_ok(),
            };
            if !taken {
                break;
            }
            proof {
                let after = bank.history();
                assert(after =~= before.push(after.last()));
                assert(same_but_id(after.last(), opv));
                assert forall|j: int| 0 <= j < after.len() implies same_but_id(
                    #[trigger] after[j],
                    log.take(i + 1)[j],
                ) by {
                    if j < before.len() {
                        assert(after[j] == before[j]);
                        assert(log.take(i + 1)[j] == log.take(i as int)[j]);
                    }
                }
            }
            i = i + 1;
        }
        bank
    }

    /// The operation recorded under `id` (the last one, should two share
    /// it), if any.
    fn get_operation_by_id(&self, id: &TransactionId) -> (r: Option<&Operation<M>>)
        ensures
            position_of_id(self.history(), id@) < 0 ==> r is None,
            position_of_id(self.history(), id@) >= 0 ==> (r matches Some(op) && op_view(*op)
                == self.history()[position_of_id(self.history(), id@)]),
    {
        match self.find_operation(id.as_str()) {
            None => None,
            Some(k) => Some(&self.history[k]),
        }
    }
}

} // verus!
