//! An in-memory ledger of currency accounts that processes commands one at a
//! time: opening accounts and moving money between accounts of the same
//! currency.

use vstd::prelude::*;
use std::collections::HashMap;
use std::time::SystemTime;
use uuid::Uuid;
use vstd::std_specs::iter::IteratorSpec;
use vstd::std_specs::hash::spec_hash_map_iter;
use vstd::set::fold::{is_fun_commutative, lemma_fold_empty, lemma_fold_insert};
use crate::text::{
    ascii_words, decimal_u128, lemma_words_hold_no_ascii_whitespace, parse_u128, same_text,
    split_ascii_words, trim, trim_text,
};

verus! {

/// A 16-byte identifier of an account or a transaction.
pub type Ids = [u8; 16];

/// Amounts of money, counted in base units.
pub type AmountType = u128;

/// Number of base units in one unit of a currency.
pub const BASE_UNIT_OF_AMOUNT: u32 = 100_000_000;

/// Why a command was refused.
#[derive(Debug, Clone, Copy, PartialEq, Eq)]
pub enum LedgerError {
    InsufficientBalance,
    InvalidAccount(&'static str),
    NegativeValue,
    AccountAlreadyExists,
    AccountNotFound,
    InvalidCommand,
    InvalidParsing(&'static str),
    DifferentCurrency,
}

#[derive(Debug, Clone, Copy, PartialEq, Eq, Structural)]
pub enum Currency {
    USD,
    EUR,
    BTC,
}

/// A request to the ledger.
#[derive(Debug, Clone, Copy, PartialEq, Eq)]
pub enum Command {
    CreateAccount { account_id: Ids, currency: Currency, starting_balance: AmountType },
    Transfer { transaction_id: Ids, from: Ids, to: Ids, amount: AmountType },
    Shutdown,
}

/// What the ledger reports for a command that it carried out.
#[derive(Debug, Clone, Copy, PartialEq, Eq)]
pub enum Event {
    NewAccountAdded { id: Ids },
    MoneyTransfered { from: Ids, to: Ids, amount: AmountType },
    Shutdown,
}

/// An account as the ledger stores it.
#[derive(Debug, Clone, Copy)]
pub struct UserAccount {
    account_id: Ids,
    currency: Currency,
    balance: AmountType,
}

/// What an account holds: its currency and its balance.
pub struct AccountState {
    pub currency: Currency,
    pub balance: AmountType,
}

impl UserAccount {
    /// The id that the account was opened under.
    pub closed spec fn id(&self) -> Ids {
        self.account_id
    }
}

impl View for UserAccount {
    type V = AccountState;

    closed spec fn view(&self) -> AccountState {
        AccountState { currency: self.currency, balance: self.balance }
    }
}

/// A transfer as the ledger records it.
#[derive(Debug, Clone, Copy)]
pub struct Transaction {
    id: Ids,
    sender: Ids,
    receiver: Ids,
    amount: AmountType,
    currency: Currency,
}

/// What a recorded transfer says: who paid whom, how much, in which currency.
pub struct TransferRecord {
    pub sender: Ids,
    pub receiver: Ids,
    pub amount: AmountType,
    pub currency: Currency,
}

impl View for Transaction {
    type V = TransferRecord;

    closed spec fn view(&self) -> TransferRecord {
        TransferRecord {
            sender: self.sender,
            receiver: self.receiver,
            amount: self.amount,
            currency: self.currency,
        }
    }
}

/// The 128-bit number whose big-endian bytes are `id`; the ledger's maps are
/// keyed by it.
pub open spec fn id_key(id: Ids) -> u128 {
    bytes_be(
        id[0], id[1], id[2], id[3], id[4], id[5], id[6], id[7],
        id[8], id[9], id[10], id[11], id[12], id[13], id[14], id[15],
    )
}

pub open spec fn bytes_be(
    b0: u8, b1: u8, b2: u8, b3: u8, b4: u8, b5: u8, b6: u8, b7: u8,
    b8: u8, b9: u8, b10: u8, b11: u8, b12: u8, b13: u8, b14: u8, b15: u8,
) -> u128 {
    ((b0 as u128) << 120u128) | ((b1 as u128) << 112u128) | ((b2 as u128) << 104u128)
        | ((b3 as u128) << 96u128) | ((b4 as u128) << 88u128) | ((b5 as u128) << 80u128)
        | ((b6 as u128) << 72u128) | ((b7 as u128) << 64u128) | ((b8 as u128) << 56u128)
        | ((b9 as u128) << 48u128) | ((b10 as u128) << 40u128) | ((b11 as u128) << 32u128)
        | ((b12 as u128) << 24u128) | ((b13 as u128) << 16u128) | ((b14 as u128) << 8u128)
        | (b15 as u128)
}

/// Each byte can be read back out of the combined number.
proof fn lemma_bytes_be_bytes(
    b0: u8, b1: u8, b2: u8, b3: u8, b4: u8, b5: u8, b6: u8, b7: u8,
    b8: u8, b9: u8, b10: u8, b11: u8, b12: u8, b13: u8, b14: u8, b15: u8,
)
    by (bit_vector)
    ensures
        ({
            let k = bytes_be(b0, b1, b2, b3, b4, b5, b6, b7, b8, b9, b10, b11, b12, b13, b14, b15);
            &&& (k >> 120u128) as u8 == b0
            &&& (k >> 112u128) as u8 == b1
            &&& (k >> 104u128) as u8 == b2
            &&& (k >> 96u128) as u8 == b3
            &&& (k >> 88u128) as u8 == b4
            &&& (k >> 80u128) as u8 == b5
            &&& (k >> 72u128) as u8 == b6
            &&& (k >> 64u128) as u8 == b7
            &&& (k >> 56u128) as u8 == b8
            &&& (k >> 48u128) as u8 == b9
            &&& (k >> 40u128) as u8 == b10
            &&& (k >> 32u128) as u8 == b11
            &&& (k >> 24u128) as u8 == b12
            &&& (k >> 16u128) as u8 == b13
            &&& (k >> 8u128) as u8 == b14
            &&& k as u8 == b15
        }),
{
}

/// Two ids with the same key are the same id.
pub proof fn lemma_id_key_injective(a: Ids, b: Ids)
    ensures
        id_key(a) == id_key(b) ==> a == b,
{
    lemma_bytes_be_bytes(
        a[0], a[1], a[2], a[3], a[4], a[5], a[6], a[7],
        a[8], a[9], a[10], a[11], a[12], a[13], a[14], a[15],
    );
    lemma_bytes_be_bytes(
        b[0], b[1], b[2], b[3], b[4], b[5], b[6], b[7],
        b[8], b[9], b[10], b[11], b[12], b[13], b[14], b[15],
    );
    if id_key(a) == id_key(b) {
        assert(a@ =~= b@);
        vstd::array::axiom_array_ext_equal(a, b);
    }
}

fn key_of(id: &Ids) -> (k: u128)
    ensures
        k == id_key(*id),
{
    ((id[0] as u128) << 120u128) | ((id[1] as u128) << 112u128) | ((id[2] as u128) << 104u128)
        | ((id[3] as u128) << 96u128) | ((id[4] as u128) << 88u128) | ((id[5] as u128) << 80u128)
        | ((id[6] as u128) << 72u128) | ((id[7] as u128) << 64u128) | ((id[8] as u128) << 56u128)
        | ((id[9] as u128) << 48u128) | ((id[10] as u128) << 40u128) | ((id[11] as u128) << 32u128)
        | ((id[12] as u128) << 24u128) | ((id[13] as u128) << 16u128) | ((id[14] as u128) << 8u128)
        | (id[15] as u128)
}

/// What `uuid::Uuid::parse_str` makes of a text: the sixteen bytes of the UUID
/// that it reads, or `None` where it reports an error. It reads the simple,
/// hyphenated, braced and URN forms of a UUID.
pub uninterp spec fn uuid_from_text(text: Seq<char>) -> Option<[u8; 16]>;

/// `uuid::Uuid`'s `FromStr` (that is, `Uuid::parse_str`), with the UUID
/// handed out as its bytes and the error as `None`.
#[verifier::external_body]
fn parse_uuid(text: &str) -> (id: Option<Ids>)
    ensures
        id == uuid_from_text(text@),
{
    match text.parse::<Uuid>() {
        Ok(uuid) => Some(*uuid.as_bytes()),
        Err(_) => None,
    }
}

/// Whether `id` carries the marks of a random (version 4) UUID: the high half
/// of byte 6 is 4 and the two high bits of byte 8 are `10`.
pub open spec fn is_random_uuid(id: Ids) -> bool {
    id[6] / 16 == 4 && id[8] / 64 == 2
}

/// `uuid::Uuid::new_v4`, handed out as its bytes: sixteen bytes from the
/// operating system's random source, with the high half of byte 6 set to the
/// version, 4, and the two high bits of byte 8 set to `10`. Nothing else is
/// stated of the bytes. (The call panics when the random source fails.)
#[verifier::external_body]
fn random_id() -> (id: Ids)
    ensures
        is_random_uuid(id),
{
    *Uuid::new_v4().as_bytes()
}

#[verifier::external_type_specification]
#[verifier::external_body]
pub struct ExSystemTime(SystemTime);

/// `std::time::SystemTime::now`: the current time of the system clock.
/// Nothing is stated of the value; it depends on when the call is made.
#[verifier::external_body]
fn current_time() -> (now: SystemTime) {
    SystemTime::now()
}

/// The currency that a word names: `usd`, `eur` or `btc`, in lower or upper
/// case.
pub open spec fn currency_named(word: Seq<char>) -> Option<Currency> {
    if word == "usd"@ || word == "USD"@ {
        Some(Currency::USD)
    } else if word == "eur"@ || word == "EUR"@ {
        Some(Currency::EUR)
    } else if word == "btc"@ || word == "BTC"@ {
        Some(Currency::BTC)
    } else {
        None
    }
}

impl Currency {
    /// Reads a currency name, ignoring surrounding whitespace.
    pub fn parse_text(s: &str) -> (result: Result<Currency, &'static str>)
        ensures
            match result {
                Ok(c) => currency_named(trim(s@)) == Some(c),
                Err(e) => currency_named(trim(s@)) is None && e@ == "Not supported currency"@,
            },
    {
        let t = trim_text(s);
        if same_text(t, "usd") || same_text(t, "USD") {
            Ok(Currency::USD)
        } else if same_text(t, "eur") || same_text(t, "EUR") {
            Ok(Currency::EUR)
        } else if same_text(t, "btc") || same_text(t, "BTC") {
            Ok(Currency::BTC)
        } else {
            Err("Not supported currency")
        }
    }
}

impl std::str::FromStr for Currency {
    type Err = &'static str;

    /// Reads a currency name, ignoring surrounding whitespace.
    fn from_str(s: &str) -> (result: Result<Self, Self::Err>)
        ensures
            match result {
                Ok(c) => currency_named(trim(s@)) == Some(c),
                Err(e) => currency_named(trim(s@)) is None && e@ == "Not supported currency"@,
            },
    {
        Currency::parse_text(s)
    }
}

/// The words of a command line: the text without its surrounding whitespace,
/// split at ASCII whitespace.
pub open spec fn command_words(s: Seq<char>) -> Seq<Seq<char>> {
    ascii_words(trim(s))
}

pub open spec fn is_create_keyword(word: Seq<char>) -> bool {
    word == "create account"@ || word == "Create Account"@
}

pub open spec fn is_transfer_keyword(word: Seq<char>) -> bool {
    word == "transfer"@ || word == "Transfer"@
}

/// Whether a command line of four words asks to open an account with a known
/// currency and a readable starting balance.
pub open spec fn reads_as_create(s: Seq<char>) -> bool {
    let words = command_words(s);
    &&& s.len() > 0
    &&& words.len() == 4
    &&& is_create_keyword(words[0])
    &&& currency_named(trim(words[2])) is Some
    &&& decimal_u128(words[3]) is Some
}

/// Whether a command line of four words asks for a transfer between two
/// readable UUIDs of a readable amount.
pub open spec fn reads_as_transfer(s: Seq<char>) -> bool {
    let words = command_words(s);
    &&& s.len() > 0
    &&& words.len() == 4
    &&& !is_create_keyword(words[0])
    &&& is_transfer_keyword(words[0])
    &&& uuid_from_text(words[1]) is Some
    &&& uuid_from_text(words[2]) is Some
    &&& decimal_u128(words[3]) is Some
}

impl Command {
    /// A transfer command from its parsed parts, under a fresh random
    /// transaction id; `InvalidCommand` when any part failed to parse.
    pub fn transfer_from_parts(from: Option<Ids>, to: Option<Ids>, amount: Option<AmountType>) -> (result: Result<Command, LedgerError>)
        ensures
            match (from, to, amount) {
                (Some(f), Some(t), Some(a)) => result matches Ok(
                    Command::Transfer { transaction_id, from: f2, to: t2, amount: a2 },
                ) && f2 == f && t2 == t && a2 == a && is_random_uuid(transaction_id),
                _ => result == Err::<Command, LedgerError>(LedgerError::InvalidCommand),
            },
    {
        match (from, to, amount) {
            (Some(from), Some(to), Some(amount)) => Ok(
                Command::Transfer { transaction_id: random_id(), from, to, amount },
            ),
            _ => Err(LedgerError::InvalidCommand),
        }
    }

    /// Reads a command line of four whitespace-separated words.
    ///
    /// `transfer FROM TO AMOUNT` (or `Transfer ...`) gives a transfer between
    /// the two UUIDs under a fresh random transaction id. A first word
    /// `create account` (or `Create Account`) followed by an ignored word, a
    /// currency and a starting balance gives an account opening under a fresh
    /// random id; since the words are split at spaces, no line has such a
    /// first word. Anything else is `InvalidCommand`.
    pub fn parse_text(s: &str) -> (result: Result<Command, LedgerError>)
        ensures
            !reads_as_create(s@) && !reads_as_transfer(s@) ==> result == Err::<Command, LedgerError>(
                LedgerError::InvalidCommand,
            ),
            reads_as_create(s@) ==> (result matches Ok(
                Command::CreateAccount { account_id, currency, starting_balance },
            ) && currency_named(trim(command_words(s@)[2])) == Some(currency) && decimal_u128(
                command_words(s@)[3],
            ) == Some(starting_balance) && is_random_uuid(account_id)),
            reads_as_transfer(s@) ==> (result matches Ok(
                Command::Transfer { transaction_id, from, to, amount },
            ) && uuid_from_text(command_words(s@)[1]) == Some(from) && uuid_from_text(
                command_words(s@)[2],
            ) == Some(to) && decimal_u128(command_words(s@)[3]) == Some(amount) && is_random_uuid(
                transaction_id,
            )),
    {
        if s.is_empty() {
            return Err(LedgerError::InvalidCommand);
        }
        let t = trim_text(s);
        let words = split_ascii_words(t);
        if words.len() != 4 {
            return Err(LedgerError::InvalidCommand);
        }
        let first = words[0];
        assert(first@ == command_words(s@)[0]);
        if same_text(first, "create account") || same_text(first, "Create Account") {
            assert(words[2]@ == command_words(s@)[2]);
            assert(words[3]@ == command_words(s@)[3]);
            let currency = match Currency::parse_text(words[2]) {
                Ok(currency) => currency,
                Err(_) => return Err(LedgerError::InvalidCommand),
            };
            let balance = match parse_u128(words[3]) {
                Some(balance) => balance,
                None => return Err(LedgerError::InvalidCommand),
            };
            Ok(
                Command::CreateAccount {
                    account_id: random_id(),
                    currency,
                    starting_balance: balance,
                },
            )
        } else if same_text(first, "transfer") || same_text(first, "Transfer") {
            assert(words[1]@ == command_words(s@)[1]);
            assert(words[2]@ == command_words(s@)[2]);
            assert(words[3]@ == command_words(s@)[3]);
            let from = parse_uuid(words[1]);
            let to = parse_uuid(words[2]);
            let amount = parse_u128(words[3]);
            Command::transfer_from_parts(from, to, amount)
        } else {
            Err(LedgerError::InvalidCommand)
        }
    }
}

impl std::str::FromStr for Command {
    type Err = LedgerError;

    /// Reads a command line; see [`Command::parse_text`].
    fn from_str(s: &str) -> (result: Result<Self, LedgerError>)
        ensures
            !reads_as_create(s@) && !reads_as_transfer(s@) ==> result == Err::<Command, LedgerError>(
                LedgerError::InvalidCommand,
            ),
            reads_as_create(s@) ==> (result matches Ok(
                Command::CreateAccount { account_id, currency, starting_balance },
            ) && currency_named(trim(command_words(s@)[2])) == Some(currency) && decimal_u128(
                command_words(s@)[3],
            ) == Some(starting_balance) && is_random_uuid(account_id)),
            reads_as_transfer(s@) ==> (result matches Ok(
                Command::Transfer { transaction_id, from, to, amount },
            ) && uuid_from_text(command_words(s@)[1]) == Some(from) && uuid_from_text(
                command_words(s@)[2],
            ) == Some(to) && decimal_u128(command_words(s@)[3]) == Some(amount) && is_random_uuid(
                transaction_id,
            )),
    {
        Command::parse_text(s)
    }
}

/// The accounts and the recorded transfers, each keyed by its id.
#[derive(Debug)]
pub struct Ledger {
    ledger_tx: HashMap<u128, (Transaction, SystemTime)>,
    ledger_balance: HashMap<u128, UserAccount>,
}

/// The accounts, keyed by their ids, after `cmd` is applied to `accounts`,
/// together with the ledger's answer and the recorded transfers.
pub open spec fn command_outcome(
    accounts: Map<Ids, AccountState>,
    transfers: Map<Ids, TransferRecord>,
    cmd: Command,
) -> (Result<Event, LedgerError>, Map<Ids, AccountState>, Map<Ids, TransferRecord>) {
    match cmd {
        Command::CreateAccount { account_id, currency, starting_balance } => {
            if accounts.contains_key(account_id) {
                (Err(LedgerError::AccountAlreadyExists), accounts, transfers)
            } else {
                (
                    Ok(Event::NewAccountAdded { id: account_id }),
                    accounts.insert(
                        account_id,
                        AccountState { currency, balance: starting_balance },
                    ),
                    transfers,
                )
            }
        },
        Command::Transfer { transaction_id, from, to, amount } => {
            if !accounts.contains_key(from) {
                (Err(LedgerError::AccountNotFound), accounts, transfers)
            } else if accounts[from].balance < amount {
                (Err(LedgerError::InsufficientBalance), accounts, transfers)
            } else if !accounts.contains_key(to) {
                (Err(LedgerError::AccountNotFound), accounts, transfers)
            } else if accounts[from].currency != accounts[to].currency {
                (Err(LedgerError::DifferentCurrency), accounts, transfers)
            } else {
                let debited = accounts.insert(
                    from,
                    AccountState {
                        currency: accounts[from].currency,
                        balance: (accounts[from].balance - amount) as u128,
                    },
                );
                let credited = debited.insert(
                    to,
                    AccountState {
                        currency: debited[to].currency,
                        balance: (debited[to].balance + amount) as u128,
                    },
                );
                (
                    Ok(Event::MoneyTransfered { from, to, amount }),
                    credited,
                    transfers.insert(
                        transaction_id,
                        TransferRecord {
                            sender: from,
                            receiver: to,
                            amount,
                            currency: accounts[from].currency,
                        },
                    ),
                )
            }
        },
        Command::Shutdown => (Ok(Event::Shutdown), accounts, transfers),
    }
}

/// Whether carrying out `cmd` would take the receiving account's balance past
/// the largest amount (the sender's balance is debited first, so a transfer
/// from an account to itself never does).
pub open spec fn credit_overflows(accounts: Map<Ids, AccountState>, cmd: Command) -> bool {
    match cmd {
        Command::Transfer { from, to, amount, .. } => {
            &&& accounts.contains_key(from)
            &&& accounts.contains_key(to)
            &&& amount <= accounts[from].balance
            &&& accounts[from].currency == accounts[to].currency
            &&& (if from == to {
                accounts[from].balance - amount
            } else {
                accounts[to].balance as int
            }) + amount > u128::MAX
        },
        _ => false,
    }
}

/// The accounts of a key-indexed table, indexed by id instead.
spec fn accounts_by_id(table: Map<u128, UserAccount>) -> Map<Ids, AccountState> {
    Map::new(|id: Ids| table.contains_key(id_key(id)), |id: Ids| table[id_key(id)]@)
}

/// The transfers of a key-indexed table, indexed by id instead.
spec fn transfers_by_id(table: Map<u128, (Transaction, SystemTime)>) -> Map<Ids, TransferRecord> {
    Map::new(|id: Ids| table.contains_key(id_key(id)), |id: Ids| table[id_key(id)].0@)
}

proof fn lemma_accounts_insert(table: Map<u128, UserAccount>, id: Ids, account: UserAccount)
    ensures
        accounts_by_id(table.insert(id_key(id), account)) == accounts_by_id(table).insert(
            id,
            account@,
        ),
{
    assert forall|other: Ids| #[trigger] id_key(other) == id_key(id) implies other == id by {
        lemma_id_key_injective(other, id);
    }
    assert(accounts_by_id(table.insert(id_key(id), account)) =~= accounts_by_id(table).insert(
        id,
        account@,
    ));
}

proof fn lemma_transfers_insert(
    table: Map<u128, (Transaction, SystemTime)>,
    id: Ids,
    entry: (Transaction, SystemTime),
)
    ensures
        transfers_by_id(table.insert(id_key(id), entry)) == transfers_by_id(table).insert(
            id,
            entry.0@,
        ),
{
    assert forall|other: Ids| #[trigger] id_key(other) == id_key(id) implies other == id by {
        lemma_id_key_injective(other, id);
    }
    assert(transfers_by_id(table.insert(id_key(id), entry)) =~= transfers_by_id(table).insert(
        id,
        entry.0@,
    ));
}

impl Ledger {
    /// The accounts, keyed by their ids.
    pub closed spec fn accounts(&self) -> Map<Ids, AccountState> {
        accounts_by_id(self.ledger_balance@)
    }

    /// The recorded transfers, keyed by their transaction ids.
    pub closed spec fn transactions(&self) -> Map<Ids, TransferRecord> {
        transfers_by_id(self.ledger_tx@)
    }

    /// Each stored account and transfer is filed under the key of its own id,
    /// and there are finitely many accounts.
    pub closed spec fn wf(&self) -> bool {
        &&& self.accounts().dom().finite()
        &&& forall|k: u128| #[trigger]
            self.ledger_balance@.contains_key(k) ==> id_key(self.ledger_balance@[k].account_id)
                == k
        &&& forall|k: u128| #[trigger]
            self.ledger_tx@.contains_key(k) ==> id_key(self.ledger_tx@[k].0.id) == k
    }

    /// A ledger with no accounts and no transfers.
    pub fn new() -> (ledger: Self)
        ensures
            ledger.wf(),
            ledger.accounts() == Map::<Ids, AccountState>::empty(),
            ledger.transactions() == Map::<Ids, TransferRecord>::empty(),
    {
        let ledger = Self { ledger_tx: HashMap::new(), ledger_balance: HashMap::new() };
        assert(ledger.accounts() =~= Map::<Ids, AccountState>::empty());
        assert(ledger.accounts().dom() =~= Set::<Ids>::empty());
        assert(ledger.transactions() =~= Map::<Ids, TransferRecord>::empty());
        ledger
    }

    /// Carries out `cmd` and reports what happened.
    ///
    /// Opening an account fails when an account with that id exists. A
    /// transfer fails when the sender does not exist, holds less than the
    /// amount, the receiver does not exist, or the two accounts hold different
    /// currencies, checked in that order; otherwise the sender is debited, the
    /// transfer is recorded under its transaction id, and the receiver is
    /// credited. A refused command changes nothing.
    pub fn process_command(&mut self, cmd: Command) -> (result: Result<Event, LedgerError>)
        requires
            old(self).wf(),
            !credit_overflows(old(self).accounts(), cmd),
        ensures
            final(self).wf(),
            (result, final(self).accounts(), final(self).transactions()) == command_outcome(
                old(self).accounts(),
                old(self).transactions(),
                cmd,
            ),
            result is Err ==> final(self).accounts() == old(self).accounts()
                && final(self).transactions() == old(self).transactions(),
            total_balance(final(self).accounts()) == total_balance(old(self).accounts())
                + opened_balance(cmd, result),
    {
        proof {
            lemma_command_totals(old(self).accounts(), old(self).transactions(), cmd);
        }
        match cmd {
            Command::CreateAccount { account_id, currency, starting_balance } => {
                let new_user_account = UserAccount {
                    account_id,
                    currency,
                    balance: starting_balance,
                };
                let key = key_of(&account_id);
                if self.ledger_balance.contains_key(&key) {
                    return Err(LedgerError::AccountAlreadyExists);
                }
                proof {
                    lemma_accounts_insert(self.ledger_balance@, account_id, new_user_account);
                }
                self.ledger_balance.insert(key, new_user_account);
                Ok(Event::NewAccountAdded { id: account_id })
            },
            Command::Transfer { transaction_id, from, to, amount } => {
                let from_key = key_of(&from);
                let to_key = key_of(&to);
                let sender_currency = if let Some(sender) = self.ledger_balance.get(&from_key) {
                    if sender.balance < amount {
                        return Err(LedgerError::InsufficientBalance);
                    }
                    sender.currency
                } else {
                    return Err(LedgerError::AccountNotFound);
                };
                let receiver_currency = if let Some(receiver) = self.ledger_balance.get(&to_key) {
                    receiver.currency
                } else {
                    return Err(LedgerError::AccountNotFound);
                };
                if sender_currency != receiver_currency {
                    return Err(LedgerError::DifferentCurrency);
                }
                if let Some(sender_account) = self.ledger_balance.get(&from_key) {
                    let mut debited = *sender_account;
                    debited.balance = debited.balance - amount;
                    let tx = Transaction {
                        id: transaction_id,
                        sender: from,
                        receiver: to,
                        amount,
                        currency: debited.currency,
                    };
                    proof {
                        lemma_accounts_insert(self.ledger_balance@, from, debited);
                    }
                    self.ledger_balance.insert(from_key, debited);
                    let timestamp = current_time();
                    proof {
                        lemma_transfers_insert(self.ledger_tx@, transaction_id, (tx, timestamp));
                    }
                    self.ledger_tx.insert(key_of(&transaction_id), (tx, timestamp));
                }
                if let Some(receiver) = self.ledger_balance.get(&to_key) {
                    let mut credited = *receiver;
                    credited.balance = credited.balance + amount;
                    proof {
                        lemma_accounts_insert(self.ledger_balance@, to, credited);
                    }
                    self.ledger_balance.insert(to_key, credited);
                    Ok(Event::MoneyTransfered { from, to, amount })
                } else {
                    Err(LedgerError::AccountNotFound)
                }
            },
            Command::Shutdown => Ok(Event::Shutdown),
        }
    }
}

impl Ledger {
    /// A well-formed ledger holds finitely many accounts, so that the sum of
    /// their balances is defined.
    pub proof fn lemma_finitely_many_accounts(&self)
        requires
            self.wf(),
        ensures
            self.accounts().dom().finite(),
    {
    }

    /// The balance of the account `id`; `None` when there is no such account.
    pub fn balance_of(&self, id: &Ids) -> (balance: Option<AmountType>)
        ensures
            balance == (if self.accounts().contains_key(*id) {
                Some(self.accounts()[*id].balance)
            } else {
                None
            }),
    {
        match self.ledger_balance.get(&key_of(id)) {
            Some(account) => Some(account.balance),
            None => None,
        }
    }

    /// Every account, each with the id that it was opened under, in no
    /// particular order.
    pub fn account_entries(&self) -> (entries: Vec<(Ids, UserAccount)>)
        requires
            self.wf(),
        ensures
            forall|i: int|
                0 <= i < entries@.len() ==> {
                    &&& self.accounts().contains_key(#[trigger] entries@[i].0)
                    &&& self.accounts()[entries@[i].0] == entries@[i].1@
                    &&& entries@[i].1.id() == entries@[i].0
                },
            forall|id: Ids|
                #[trigger] self.accounts().contains_key(id) ==> exists|i: int|
                    0 <= i < entries@.len() && entries@[i].0 == id,
            forall|i: int, j: int|
                0 <= i < j < entries@.len() ==> entries@[i].0 != entries@[j].0,
    {
        let mut entries: Vec<(Ids, UserAccount)> = Vec::new();
        let accounts = self.ledger_balance.iter();
        let ghost pairs = IteratorSpec::remaining(&accounts);
        assert(pairs == spec_hash_map_iter(&self.ledger_balance).remaining());
        for pair in it: accounts
            invariant
                self.wf(),
                it.seq() == pairs,
                entries@.len() == it.index(),
                forall|j: int|
                    0 <= j < it.index() ==> #[trigger] entries@[j] == (
                        it.seq()[j].1.account_id,
                        *it.seq()[j].1,
                    ),
        {
            let (_key, account) = pair;
            entries.push((account.account_id, *account));
        }
        proof {
            let m = self.ledger_balance@;
            assert(entries@.len() == pairs.len());
            assert forall|i: int| 0 <= i < entries@.len() implies {
                &&& self.accounts().contains_key(#[trigger] entries@[i].0)
                &&& self.accounts()[entries@[i].0] == entries@[i].1@
                &&& entries@[i].1.id() == entries@[i].0
            } by {
                let k = *pairs[i].0;
                assert(m.contains_key(k) && m[k] == *pairs[i].1);
                assert(id_key(m[k].account_id) == k);
            }
            assert forall|id: Ids| #[trigger] self.accounts().contains_key(id) implies exists|i: int|
                0 <= i < entries@.len() && entries@[i].0 == id by {
                let k = id_key(id);
                assert(m.contains_key(k));
                assert(pairs.contains((&k, &m[k])));
                let i = choose|i: int| 0 <= i < pairs.len() && pairs[i] == (&k, &m[k]);
                assert(id_key(m[k].account_id) == k);
                lemma_id_key_injective(m[k].account_id, id);
                assert(entries@[i].0 == id);
            }
            assert forall|i: int, j: int| 0 <= i < j < entries@.len() implies entries@[i].0
                != entries@[j].0 by {
                let ki = *pairs[i].0;
                let kj = *pairs[j].0;
                assert(m.contains_key(ki) && m[ki] == *pairs[i].1);
                assert(m.contains_key(kj) && m[kj] == *pairs[j].1);
                if entries@[i].0 == entries@[j].0 {
                    assert(id_key(m[ki].account_id) == ki);
                    assert(id_key(m[kj].account_id) == kj);
                    assert(pairs[i] == pairs[j]);
                    assert(pairs.no_duplicates());
                }
            }
        }
        entries
    }

    /// Whether carrying out `cmd` would take the receiving account's balance
    /// past the largest amount.
    pub fn credit_would_overflow(&self, cmd: &Command) -> (overflows: bool)
        ensures
            overflows == credit_overflows(self.accounts(), *cmd),
    {
        match cmd {
            Command::Transfer { from, to, amount, .. } => {
                let from_key = key_of(from);
                let to_key = key_of(to);
                proof {
                    lemma_id_key_injective(*from, *to);
                }
                let sender = match self.ledger_balance.get(&from_key) {
                    Some(sender) => *sender,
                    None => return false,
                };
                let receiver = match self.ledger_balance.get(&to_key) {
                    Some(receiver) => *receiver,
                    None => return false,
                };
                if sender.balance < *amount || sender.currency != receiver.currency {
                    return false;
                }
                let credited_from = if from_key == to_key {
                    sender.balance - *amount
                } else {
                    receiver.balance
                };
                credited_from.checked_add(*amount).is_none()
            },
            _ => false,
        }
    }
}

/// A refused command leaves the accounts and the recorded transfers as they
/// were.
pub proof fn lemma_refused_command_changes_nothing(
    accounts: Map<Ids, AccountState>,
    transfers: Map<Ids, TransferRecord>,
    cmd: Command,
)
    ensures
        command_outcome(accounts, transfers, cmd).0 is Err ==> command_outcome(
            accounts,
            transfers,
            cmd,
        ).1 == accounts && command_outcome(accounts, transfers, cmd).2 == transfers,
{
}

/// No command closes an account or changes the currency of an account.
pub proof fn lemma_accounts_persist(
    accounts: Map<Ids, AccountState>,
    transfers: Map<Ids, TransferRecord>,
    cmd: Command,
    id: Ids,
)
    requires
        accounts.contains_key(id),
    ensures
        command_outcome(accounts, transfers, cmd).1.contains_key(id),
        command_outcome(accounts, transfers, cmd).1[id].currency == accounts[id].currency,
{
}

/// A transfer that goes through takes the amount from the sender and gives it
/// to the receiver, so that the two balances add up to what they did before;
/// no other account changes, and a transfer from an account to itself changes
/// nothing.
pub proof fn lemma_transfer_conserves_money(
    accounts: Map<Ids, AccountState>,
    transfers: Map<Ids, TransferRecord>,
    transaction_id: Ids,
    from: Ids,
    to: Ids,
    amount: AmountType,
)
    requires
        command_outcome(
            accounts,
            transfers,
            Command::Transfer { transaction_id, from, to, amount },
        ).0 is Ok,
        !credit_overflows(accounts, Command::Transfer { transaction_id, from, to, amount }),
    ensures
        ({
            let after = command_outcome(
                accounts,
                transfers,
                Command::Transfer { transaction_id, from, to, amount },
            ).1;
            &&& after.dom() == accounts.dom()
            &&& forall|id: Ids|
                #![trigger after[id]]
                accounts.contains_key(id) && id != from && id != to ==> after[id] == accounts[id]
            &&& from != to ==> after[from].balance == accounts[from].balance - amount
                && after[to].balance == accounts[to].balance + amount
            &&& after[from].balance + after[to].balance == accounts[from].balance
                + accounts[to].balance
            &&& from == to ==> after[from] == accounts[from]
        }),
{
    let after = command_outcome(
        accounts,
        transfers,
        Command::Transfer { transaction_id, from, to, amount },
    ).1;
    assert(after.dom() =~= accounts.dom());
}

/// Adds an account's balance to a running sum.
pub open spec fn add_balance(accounts: Map<Ids, AccountState>) -> spec_fn(int, Ids) -> int {
    |sum: int, id: Ids| sum + accounts[id].balance
}

/// The sum of the balances of all accounts.
pub open spec fn total_balance(accounts: Map<Ids, AccountState>) -> int {
    accounts.dom().fold(0int, add_balance(accounts))
}

proof fn lemma_add_balance_commutative(accounts: Map<Ids, AccountState>)
    ensures
        is_fun_commutative(add_balance(accounts)),
{
    assert forall|a1: Ids, a2: Ids, b: int| #[trigger]
        add_balance(accounts)(add_balance(accounts)(b, a2), a1) == add_balance(accounts)(
            add_balance(accounts)(b, a1),
            a2,
        ) by {}
}

/// Summing over a set of ids gives the same result for two account maps that
/// agree on the balances of those ids.
proof fn lemma_sum_agrees(ids: Set<Ids>, a: Map<Ids, AccountState>, b: Map<Ids, AccountState>)
    requires
        ids.finite(),
        forall|id: Ids| ids.contains(id) ==> #[trigger] a[id].balance == b[id].balance,
    ensures
        ids.fold(0int, add_balance(a)) == ids.fold(0int, add_balance(b)),
    decreases ids.len(),
{
    lemma_add_balance_commutative(a);
    lemma_add_balance_commutative(b);
    if ids.len() == 0 {
        assert(ids =~= Set::<Ids>::empty());
        lemma_fold_empty(0int, add_balance(a));
        lemma_fold_empty(0int, add_balance(b));
    } else {
        let id = ids.choose();
        let rest = ids.remove(id);
        lemma_sum_agrees(rest, a, b);
        lemma_fold_insert(rest, 0int, add_balance(a), id);
        lemma_fold_insert(rest, 0int, add_balance(b), id);
        assert(rest.insert(id) =~= ids);
    }
}

/// A transfer that goes through leaves the sum of all balances as it was.
pub proof fn lemma_transfer_conserves_total(
    accounts: Map<Ids, AccountState>,
    transfers: Map<Ids, TransferRecord>,
    transaction_id: Ids,
    from: Ids,
    to: Ids,
    amount: AmountType,
)
    requires
        accounts.dom().finite(),
        command_outcome(
            accounts,
            transfers,
            Command::Transfer { transaction_id, from, to, amount },
        ).0 is Ok,
        !credit_overflows(accounts, Command::Transfer { transaction_id, from, to, amount }),
    ensures
        total_balance(
            command_outcome(
                accounts,
                transfers,
                Command::Transfer { transaction_id, from, to, amount },
            ).1,
        ) == total_balance(accounts),
{
    let after = command_outcome(
        accounts,
        transfers,
        Command::Transfer { transaction_id, from, to, amount },
    ).1;
    lemma_transfer_conserves_money(accounts, transfers, transaction_id, from, to, amount);
    if from == to {
        assert(after =~= accounts);
    } else {
        let ids = accounts.dom();
        let rest = ids.remove(from).remove(to);
        let with_to = rest.insert(to);
        assert(with_to.insert(from) =~= ids);
        assert(after.dom() =~= ids);
        lemma_add_balance_commutative(accounts);
        lemma_add_balance_commutative(after);
        lemma_sum_agrees(rest, accounts, after);
        lemma_fold_insert(rest, 0int, add_balance(accounts), to);
        lemma_fold_insert(rest, 0int, add_balance(after), to);
        lemma_fold_insert(with_to, 0int, add_balance(accounts), from);
        lemma_fold_insert(with_to, 0int, add_balance(after), from);
    }
}

/// Opening an account adds its starting balance to the sum of all balances.
pub proof fn lemma_opening_adds_starting_balance(
    accounts: Map<Ids, AccountState>,
    transfers: Map<Ids, TransferRecord>,
    account_id: Ids,
    currency: Currency,
    starting_balance: AmountType,
)
    requires
        accounts.dom().finite(),
        command_outcome(
            accounts,
            transfers,
            Command::CreateAccount { account_id, currency, starting_balance },
        ).0 is Ok,
    ensures
        total_balance(
            command_outcome(
                accounts,
                transfers,
                Command::CreateAccount { account_id, currency, starting_balance },
            ).1,
        ) == total_balance(accounts) + starting_balance,
{
    let after = command_outcome(
        accounts,
        transfers,
        Command::CreateAccount { account_id, currency, starting_balance },
    ).1;
    let ids = accounts.dom();
    assert(after.dom() =~= ids.insert(account_id));
    lemma_add_balance_commutative(after);
    lemma_sum_agrees(ids, accounts, after);
    lemma_fold_insert(ids, 0int, add_balance(after), account_id);
}

/// What a command adds to the sum of all balances: the starting balance of an
/// account that it opens, and nothing otherwise.
pub open spec fn opened_balance(cmd: Command, result: Result<Event, LedgerError>) -> int {
    match cmd {
        Command::CreateAccount { starting_balance, .. } => if result is Ok {
            starting_balance as int
        } else {
            0
        },
        _ => 0,
    }
}

/// Every command leaves the sum of all balances as it was, except that
/// opening an account adds its starting balance; a refused command changes
/// nothing at all.
pub proof fn lemma_command_totals(
    accounts: Map<Ids, AccountState>,
    transfers: Map<Ids, TransferRecord>,
    cmd: Command,
)
    requires
        accounts.dom().finite(),
        !credit_overflows(accounts, cmd),
    ensures
        command_outcome(accounts, transfers, cmd).0 is Err ==> command_outcome(
            accounts,
            transfers,
            cmd,
        ).1 == accounts && command_outcome(accounts, transfers, cmd).2 == transfers,
        total_balance(command_outcome(accounts, transfers, cmd).1) == total_balance(accounts)
            + opened_balance(cmd, command_outcome(accounts, transfers, cmd).0),
{
    let outcome = command_outcome(accounts, transfers, cmd);
    match cmd {
        Command::CreateAccount { account_id, currency, starting_balance } => {
            if outcome.0 is Ok {
                lemma_opening_adds_starting_balance(
                    accounts,
                    transfers,
                    account_id,
                    currency,
                    starting_balance,
                );
            }
        },
        Command::Transfer { transaction_id, from, to, amount } => {
            if outcome.0 is Ok {
                lemma_transfer_conserves_total(accounts, transfers, transaction_id, from, to, amount);
            }
        },
        Command::Shutdown => {},
    }
}

/// How the ledger answers a transfer. It is refused, changing nothing, when
/// the sender does not exist (`AccountNotFound`), holds less than the amount
/// (`InsufficientBalance`), the receiver does not exist (`AccountNotFound`), or
/// the two accounts hold different currencies (`DifferentCurrency`), checked in
/// that order. Otherwise it goes through: it reports the command's own sender,
/// receiver and amount, and records the transfer under its transaction id in
/// the sender's currency.
pub proof fn lemma_transfer_answer(
    accounts: Map<Ids, AccountState>,
    transfers: Map<Ids, TransferRecord>,
    transaction_id: Ids,
    from: Ids,
    to: Ids,
    amount: AmountType,
)
    ensures
        ({
            let outcome = command_outcome(
                accounts,
                transfers,
                Command::Transfer { transaction_id, from, to, amount },
            );
            let has_from = accounts.contains_key(from);
            let has_to = accounts.contains_key(to);
            let covered = has_from && amount <= accounts[from].balance;
            let same_currency = has_from && has_to && accounts[from].currency
                == accounts[to].currency;
            &&& !has_from ==> outcome.0 == Err::<Event, LedgerError>(LedgerError::AccountNotFound)
            &&& has_from && accounts[from].balance < amount ==> outcome.0 == Err::<
                Event,
                LedgerError,
            >(LedgerError::InsufficientBalance)
            &&& covered && !has_to ==> outcome.0 == Err::<Event, LedgerError>(
                LedgerError::AccountNotFound,
            )
            &&& covered && has_to && !same_currency ==> outcome.0 == Err::<Event, LedgerError>(
                LedgerError::DifferentCurrency,
            )
            &&& (outcome.0 is Ok <==> covered && same_currency)
            &&& outcome.0 is Ok ==> outcome.0 == Ok::<Event, LedgerError>(
                Event::MoneyTransfered { from, to, amount },
            ) && outcome.2 == transfers.insert(
                transaction_id,
                TransferRecord { sender: from, receiver: to, amount, currency: accounts[from].currency },
            )
            &&& outcome.0 is Err ==> outcome.1 == accounts && outcome.2 == transfers
        }),
{
}

/// How the ledger answers an account opening. It is refused with
/// `AccountAlreadyExists`, changing nothing, exactly when an account with that
/// id exists. Otherwise it reports the new id, and the new account holds the
/// requested currency and starting balance while every other account and the
/// recorded transfers stay as they were.
pub proof fn lemma_opening_answer(
    accounts: Map<Ids, AccountState>,
    transfers: Map<Ids, TransferRecord>,
    account_id: Ids,
    currency: Currency,
    starting_balance: AmountType,
)
    ensures
        ({
            let outcome = command_outcome(
                accounts,
                transfers,
                Command::CreateAccount { account_id, currency, starting_balance },
            );
            &&& (outcome.0 is Ok <==> !accounts.contains_key(account_id))
            &&& outcome.0 is Err ==> outcome.0 == Err::<Event, LedgerError>(
                LedgerError::AccountAlreadyExists,
            ) && outcome.1 == accounts && outcome.2 == transfers
            &&& outcome.0 is Ok ==> {
                &&& outcome.0 == Ok::<Event, LedgerError>(Event::NewAccountAdded { id: account_id })
                &&& outcome.1.dom() == accounts.dom().insert(account_id)
                &&& outcome.1[account_id].currency == currency
                &&& outcome.1[account_id].balance == starting_balance
                &&& forall|other: Ids|
                    #[trigger] accounts.contains_key(other) ==> outcome.1[other] == accounts[other]
                &&& outcome.2 == transfers
            }
        }),
{
    let outcome = command_outcome(
        accounts,
        transfers,
        Command::CreateAccount { account_id, currency, starting_balance },
    );
    if outcome.0 is Ok {
        assert(outcome.1.dom() =~= accounts.dom().insert(account_id));
    }
}

/// A shutdown is acknowledged and changes nothing.
pub proof fn lemma_shutdown_answer(
    accounts: Map<Ids, AccountState>,
    transfers: Map<Ids, TransferRecord>,
)
    ensures
        command_outcome(accounts, transfers, Command::Shutdown) == (
            Ok::<Event, LedgerError>(Event::Shutdown),
            accounts,
            transfers,
        ),
{
}

/// The currency names are `usd`/`USD`, `eur`/`EUR` and `btc`/`BTC`, each
/// naming its own currency, and no other word names a currency.
pub proof fn lemma_currency_names(word: Seq<char>)
    ensures
        currency_named(word) == Some(Currency::USD) <==> (word == "usd"@ || word == "USD"@),
        currency_named(word) == Some(Currency::EUR) <==> (word == "eur"@ || word == "EUR"@),
        currency_named(word) == Some(Currency::BTC) <==> (word == "btc"@ || word == "BTC"@),
{
    reveal_strlit("usd");
    reveal_strlit("USD");
    reveal_strlit("eur");
    reveal_strlit("EUR");
    reveal_strlit("btc");
    reveal_strlit("BTC");
    assert("eur"@[0] != "usd"@[0] && "eur"@[0] != "USD"@[0]);
    assert("EUR"@[0] != "usd"@[0] && "EUR"@[0] != "USD"@[0]);
    assert("btc"@[0] != "usd"@[0] && "btc"@[0] != "USD"@[0]);
    assert("BTC"@[0] != "usd"@[0] && "BTC"@[0] != "USD"@[0]);
    assert("btc"@[0] != "eur"@[0] && "btc"@[0] != "EUR"@[0]);
    assert("BTC"@[0] != "eur"@[0] && "BTC"@[0] != "EUR"@[0]);
}

/// No command line reads as an account opening: its first word would have to
/// be `create account` or `Create Account`, which hold a space, and words are
/// split at spaces.
pub proof fn lemma_no_line_reads_as_create(s: Seq<char>)
    ensures
        !reads_as_create(s),
{
    let words = command_words(s);
    lemma_words_hold_no_ascii_whitespace(trim(s));
    if words.len() > 0 {
        reveal_strlit("create account");
        reveal_strlit("Create Account");
        if is_create_keyword(words[0]) {
            assert(words[0][6] == ' ');
            assert(false);
        }
    }
}

/// Whether the processing loop ends after a reply that could not be
/// delivered: it ends only when that reply was the acknowledgement of a
/// shutdown.
pub fn stops_after_undelivered_reply(reply: &Result<Event, LedgerError>) -> (stop: bool)
    ensures
        stop == (*reply == Ok::<Event, LedgerError>(Event::Shutdown)),
{
    match reply {
        Ok(Event::Shutdown) => true,
        _ => false,
    }
}

} // verus!
