use rustlab::ledger::{
    stops_after_undelivered_reply, Command, Currency, Event, Ids, Ledger, LedgerError,
};

const ALICE: Ids = [1; 16];
const BOB: Ids = [2; 16];
const CAROL: Ids = [3; 16];
const TX: Ids = [9; 16];

fn open(ledger: &mut Ledger, id: Ids, currency: Currency, balance: u128) -> Result<Event, LedgerError> {
    let cmd = Command::CreateAccount { account_id: id, currency, starting_balance: balance };
    assert!(!ledger.credit_would_overflow(&cmd));
    ledger.process_command(cmd)
}

fn transfer(ledger: &mut Ledger, from: Ids, to: Ids, amount: u128) -> Result<Event, LedgerError> {
    let cmd = Command::Transfer { transaction_id: TX, from, to, amount };
    assert!(!ledger.credit_would_overflow(&cmd));
    ledger.process_command(cmd)
}

#[test]
fn ledger_opens_accounts_once() {
    let mut ledger = Ledger::new();
    assert_eq!(open(&mut ledger, ALICE, Currency::USD, 1000), Ok(Event::NewAccountAdded { id: ALICE }));
    assert_eq!(ledger.balance_of(&ALICE), Some(1000));
    assert_eq!(open(&mut ledger, ALICE, Currency::EUR, 5), Err(LedgerError::AccountAlreadyExists));
    assert_eq!(ledger.balance_of(&ALICE), Some(1000));
    assert_eq!(ledger.balance_of(&BOB), None);
}

#[test]
fn ledger_transfer_moves_money() {
    let mut ledger = Ledger::new();
    open(&mut ledger, ALICE, Currency::USD, 1000).unwrap();
    open(&mut ledger, BOB, Currency::USD, 1000).unwrap();
    assert_eq!(
        transfer(&mut ledger, ALICE, BOB, 500),
        Ok(Event::MoneyTransfered { from: ALICE, to: BOB, amount: 500 })
    );
    assert_eq!(ledger.balance_of(&ALICE), Some(500));
    assert_eq!(ledger.balance_of(&BOB), Some(1500));
    assert_eq!(transfer(&mut ledger, ALICE, BOB, 501), Err(LedgerError::InsufficientBalance));
    assert_eq!(transfer(&mut ledger, ALICE, BOB, 500), Ok(Event::MoneyTransfered { from: ALICE, to: BOB, amount: 500 }));
    assert_eq!(ledger.balance_of(&ALICE), Some(0));
    assert_eq!(ledger.balance_of(&BOB), Some(2000));
}

#[test]
fn ledger_refuses_bad_transfers_without_change() {
    let mut ledger = Ledger::new();
    open(&mut ledger, ALICE, Currency::USD, 100).unwrap();
    open(&mut ledger, CAROL, Currency::BTC, 100).unwrap();
    assert_eq!(transfer(&mut ledger, BOB, ALICE, 1), Err(LedgerError::AccountNotFound));
    assert_eq!(transfer(&mut ledger, ALICE, BOB, 1), Err(LedgerError::AccountNotFound));
    // The balance is checked before the receiver is looked up.
    assert_eq!(transfer(&mut ledger, ALICE, BOB, 101), Err(LedgerError::InsufficientBalance));
    assert_eq!(transfer(&mut ledger, ALICE, CAROL, 1), Err(LedgerError::DifferentCurrency));
    assert_eq!(ledger.balance_of(&ALICE), Some(100));
    assert_eq!(ledger.balance_of(&CAROL), Some(100));
}

#[test]
fn ledger_transfer_to_self_keeps_balance() {
    let mut ledger = Ledger::new();
    open(&mut ledger, ALICE, Currency::EUR, u128::MAX).unwrap();
    assert_eq!(
        transfer(&mut ledger, ALICE, ALICE, u128::MAX),
        Ok(Event::MoneyTransfered { from: ALICE, to: ALICE, amount: u128::MAX })
    );
    assert_eq!(ledger.balance_of(&ALICE), Some(u128::MAX));
}

#[test]
fn ledger_reports_credit_overflow() {
    let mut ledger = Ledger::new();
    open(&mut ledger, ALICE, Currency::USD, 10).unwrap();
    open(&mut ledger, BOB, Currency::USD, u128::MAX - 5).unwrap();
    let cmd = Command::Transfer { transaction_id: TX, from: ALICE, to: BOB, amount: 6 };
    assert!(ledger.credit_would_overflow(&cmd));
    let cmd = Command::Transfer { transaction_id: TX, from: ALICE, to: BOB, amount: 5 };
    assert!(!ledger.credit_would_overflow(&cmd));
    assert!(ledger.process_command(cmd).is_ok());
    assert_eq!(ledger.balance_of(&BOB), Some(u128::MAX));
}

#[test]
fn ledger_shutdown_is_acknowledged() {
    let mut ledger = Ledger::new();
    let reply = ledger.process_command(Command::Shutdown);
    assert_eq!(reply, Ok(Event::Shutdown));
    assert!(stops_after_undelivered_reply(&reply));
    assert!(!stops_after_undelivered_reply(&Ok(Event::NewAccountAdded { id: ALICE })));
    assert!(!stops_after_undelivered_reply(&Err(LedgerError::InvalidCommand)));
}

const UUID_A: &str = "550e8400-e29b-41d4-a716-446655440000";
const UUID_A_BYTES: Ids = [
    0x55, 0x0e, 0x84, 0x00, 0xe2, 0x9b, 0x41, 0xd4, 0xa7, 0x16, 0x44, 0x66, 0x55, 0x44, 0x00, 0x00,
];
const UUID_B: &str = "67e5504410b1426f9247bb680e5fe0c8";
const UUID_B_BYTES: Ids = [
    0x67, 0xe5, 0x50, 0x44, 0x10, 0xb1, 0x42, 0x6f, 0x92, 0x47, 0xbb, 0x68, 0x0e, 0x5f, 0xe0, 0xc8,
];

#[test]
fn command_parses_transfer() {
    let line = format!("transfer {} {} 500", UUID_A, UUID_B);
    match Command::parse_text(&line) {
        Ok(Command::Transfer { transaction_id, from, to, amount }) => {
            assert_eq!(from, UUID_A_BYTES);
            assert_eq!(to, UUID_B_BYTES);
            assert_eq!(amount, 500);
            assert_eq!(transaction_id[6] >> 4, 4);
            assert_eq!(transaction_id[8] >> 6, 2);
        }
        other => panic!("unexpected {:?}", other),
    }
}

#[test]
fn command_parses_padded_transfer_through_from_str() {
    let line = format!("\u{a0} Transfer\t{}  {}\n+42 \u{3000}", UUID_B, UUID_A);
    let cmd: Command = line.parse().unwrap();
    match cmd {
        Command::Transfer { from, to, amount, .. } => {
            assert_eq!(from, UUID_B_BYTES);
            assert_eq!(to, UUID_A_BYTES);
            assert_eq!(amount, 42);
        }
        other => panic!("unexpected {:?}", other),
    }
}

#[test]
fn command_rejects_malformed_lines() {
    let bad = [
        String::new(),
        "   ".to_string(),
        format!("transfer {} {}", UUID_A, UUID_B),
        format!("transfer {} {} 5 6", UUID_A, UUID_B),
        format!("send {} {} 5", UUID_A, UUID_B),
        format!("TRANSFER {} {} 5", UUID_A, UUID_B),
        format!("transfer nope {} 5", UUID_B),
        format!("transfer {} {} -5", UUID_A, UUID_B),
        format!("transfer {} {} +", UUID_A, UUID_B),
        format!("transfer {} {} 340282366920938463463374607431768211456", UUID_A, UUID_B),
        "create account USD 100".to_string(),
        "Create Account USD 100".to_string(),
    ];
    for line in bad.iter() {
        assert_eq!(Command::parse_text(line), Err(LedgerError::InvalidCommand), "{line:?}");
    }
}

#[test]
fn command_reads_largest_amount() {
    let line = format!("transfer {} {} 340282366920938463463374607431768211455", UUID_A, UUID_B);
    match Command::parse_text(&line) {
        Ok(Command::Transfer { amount, .. }) => assert_eq!(amount, u128::MAX),
        other => panic!("unexpected {:?}", other),
    }
    let line = format!("transfer {} {} 000000000000000000000000000000000000000000007", UUID_A, UUID_B);
    match Command::parse_text(&line) {
        Ok(Command::Transfer { amount, .. }) => assert_eq!(amount, 7),
        other => panic!("unexpected {:?}", other),
    }
}

#[test]
fn transfer_from_parts_needs_every_part() {
    assert_eq!(
        Command::transfer_from_parts(None, Some(BOB), Some(1)),
        Err(LedgerError::InvalidCommand)
    );
    assert_eq!(
        Command::transfer_from_parts(Some(ALICE), Some(BOB), None),
        Err(LedgerError::InvalidCommand)
    );
    match Command::transfer_from_parts(Some(ALICE), Some(BOB), Some(3)) {
        Ok(Command::Transfer { from, to, amount, .. }) => {
            assert_eq!((from, to, amount), (ALICE, BOB, 3));
        }
        other => panic!("unexpected {:?}", other),
    }
}

#[test]
fn currency_parses_names() {
    assert_eq!(Currency::parse_text("usd"), Ok(Currency::USD));
    assert_eq!(Currency::parse_text(" EUR\n"), Ok(Currency::EUR));
    assert_eq!("\u{2003}btc\t".parse::<Currency>(), Ok(Currency::BTC));
    assert_eq!(Currency::parse_text("Usd"), Err("Not supported currency"));
    assert_eq!(Currency::parse_text(""), Err("Not supported currency"));
}

#[test]
fn ledger_lists_every_account_once() {
    let mut ledger = Ledger::new();
    open(&mut ledger, ALICE, Currency::USD, 7).unwrap();
    open(&mut ledger, BOB, Currency::EUR, 8).unwrap();
    let mut entries = ledger.account_entries();
    entries.sort_by_key(|(id, _)| *id);
    assert_eq!(entries.len(), 2);
    assert_eq!(entries[0].0, ALICE);
    assert_eq!(entries[1].0, BOB);
    assert_eq!(
        format!("{:?}", entries[0].1),
        format!("UserAccount {{ account_id: {:?}, currency: USD, balance: 7 }}", ALICE)
    );
}
