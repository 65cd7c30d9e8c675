use nft_bridge::account::{Account, Principal};
use nft_bridge::ledger::{
    icrc10_supported_standards, BurnError, MintArgs, MintError, NFTContract, QueryError,
    TransferArgs, TransferError,
};
use nft_bridge::metadata::{MetadataEntry, Value};
use nft_bridge::token_id::TokenId;

fn holder_x() -> Account {
    Account::of(Principal::anonymous())
}

fn holder_y() -> Account {
    Account::of(Principal::management_canister())
}

fn id(n: u64) -> TokenId {
    TokenId::from_u64(n)
}

fn ids(ns: &[u64]) -> Vec<TokenId> {
    ns.iter().map(|n| TokenId::from_u64(*n)).collect()
}

fn collection(cap: Option<u64>) -> NFTContract {
    NFTContract::configured(
        "Mirrors".to_string(),
        "MIR".to_string(),
        None,
        None,
        cap,
        None,
        None,
        vec![],
    )
}

fn mint_to(ledger: &mut NFTContract, to: Account, token: u64) -> Result<TokenId, MintError> {
    ledger.mint(MintArgs {
        to,
        token_id: id(token),
        metadata: vec![],
    })
}

fn request(from: Account, to: Account, tokens: &[u64], is_atomic: Option<bool>) -> TransferArgs {
    TransferArgs {
        spender_subaccount: None,
        from,
        to,
        token_ids: ids(tokens),
        memo: None,
        created_at_time: None,
        is_atomic,
    }
}

fn unauthorized(tokens: &[u64]) -> Result<TokenId, TransferError> {
    Err(TransferError::Unauthorized {
        token_ids: ids(tokens),
    })
}

#[test]
fn new_ledger_is_empty_and_uncapped() {
    let ledger = NFTContract::new("Mirrors".to_string(), "MIR".to_string());
    assert_eq!(ledger.icrc7_name(), "Mirrors");
    assert_eq!(ledger.icrc7_symbol(), "MIR");
    assert_eq!(ledger.icrc7_description(), None);
    assert_eq!(ledger.icrc7_image(), None);
    assert_eq!(ledger.icrc7_total_supply(), 0);
    assert_eq!(ledger.icrc7_supply_cap(), None);
    assert_eq!(ledger.icrc7_royalties(), None);
    assert!(ledger.icrc7_royalty_recipient().is_none());
    assert!(ledger.icrc7_collection_metadata().is_empty());
}

#[test]
fn configured_ledger_reports_its_attributes() {
    let ledger = NFTContract::configured(
        "Mirrors".to_string(),
        "MIR".to_string(),
        Some("reflections".to_string()),
        Some("https://example.com/m.png".to_string()),
        Some(7),
        Some(250),
        Some(holder_y()),
        vec![MetadataEntry::text("origin".to_string(), "evm".to_string())],
    );
    assert_eq!(ledger.icrc7_description(), Some("reflections".to_string()));
    assert_eq!(ledger.icrc7_image(), Some("https://example.com/m.png".to_string()));
    assert_eq!(ledger.icrc7_supply_cap(), Some(7));
    assert_eq!(ledger.icrc7_royalties(), Some(250));
    assert_eq!(ledger.icrc7_royalty_recipient(), Some(holder_y()));
    assert_eq!(
        ledger.icrc7_collection_metadata(),
        &vec![MetadataEntry {
            key: "origin".to_string(),
            value: Value::Text("evm".to_string()),
        }]
    );
    assert_eq!(
        ledger.icrc7_supported_standards(),
        vec![("ICRC7".to_string(), "1.0.0".to_string())]
    );
}

#[test]
fn supported_standards_are_listed_with_their_pages() {
    assert_eq!(
        icrc10_supported_standards(),
        vec![
            (
                "ICRC-7".to_string(),
                "https://github.com/dfinity/ICRC/issues/7".to_string()
            ),
            (
                "ICRC-10".to_string(),
                "https://github.com/dfinity/ICRC/issues/10".to_string()
            ),
        ]
    );
}

#[test]
fn mint_up_to_the_cap() {
    let mut ledger = collection(Some(1));
    assert_eq!(mint_to(&mut ledger, holder_x(), 1), Ok(id(1)));
    assert_eq!(
        mint_to(&mut ledger, holder_x(), 2),
        Err(MintError::SupplyCapReached)
    );
    assert_eq!(ledger.icrc7_total_supply(), 1);
    assert_eq!(ledger.icrc7_tokens_of(&holder_x()), ids(&[1]));
}

#[test]
fn existing_token_is_reported_before_the_cap() {
    let mut ledger = collection(Some(1));
    mint_to(&mut ledger, holder_x(), 1).unwrap();
    assert_eq!(
        mint_to(&mut ledger, holder_y(), 1),
        Err(MintError::AlreadyExists)
    );
}

#[test]
fn mint_of_existing_token_changes_nothing() {
    let mut ledger = collection(None);
    ledger
        .mint(MintArgs {
            to: holder_x(),
            token_id: id(1),
            metadata: vec![MetadataEntry::text("name".to_string(), "first".to_string())],
        })
        .unwrap();
    let again = ledger.mint(MintArgs {
        to: holder_y(),
        token_id: id(1),
        metadata: vec![MetadataEntry::text("name".to_string(), "second".to_string())],
    });
    assert_eq!(again, Err(MintError::AlreadyExists));
    assert_eq!(ledger.icrc7_total_supply(), 1);
    assert_eq!(ledger.icrc7_owner_of(&id(1)), Ok(holder_x()));
    assert_eq!(ledger.icrc7_tokens_of(&holder_y()), ids(&[]));
    assert_eq!(
        ledger.icrc7_metadata(&id(1)),
        Some(&vec![MetadataEntry::text(
            "name".to_string(),
            "first".to_string()
        )])
    );
}

#[test]
fn atomic_request_with_a_token_not_held() {
    let mut ledger = collection(None);
    mint_to(&mut ledger, holder_x(), 1).unwrap();
    mint_to(&mut ledger, holder_x(), 2).unwrap();

    let results = ledger.transfer(vec![request(holder_x(), holder_y(), &[1, 3], Some(true))]);
    assert_eq!(results, vec![unauthorized(&[3])]);
    assert_eq!(ledger.icrc7_tokens_of(&holder_x()), ids(&[1, 2]));
    assert_eq!(ledger.icrc7_tokens_of(&holder_y()), ids(&[]));
    assert_eq!(ledger.icrc7_owner_of(&id(1)), Ok(holder_x()));
}

#[test]
fn non_atomic_request_with_a_token_not_held() {
    let mut ledger = collection(None);
    mint_to(&mut ledger, holder_x(), 1).unwrap();

    let results = ledger.transfer(vec![request(holder_x(), holder_y(), &[1, 3], Some(false))]);
    assert_eq!(results, vec![Ok(id(1)), unauthorized(&[3])]);
    assert_eq!(ledger.icrc7_tokens_of(&holder_x()), ids(&[]));
    assert_eq!(ledger.icrc7_tokens_of(&holder_y()), ids(&[1]));
    assert_eq!(ledger.icrc7_balance_of(&holder_x()), 0);
    assert_eq!(ledger.icrc7_balance_of(&holder_y()), 1);
}

#[test]
fn request_is_atomic_unless_it_says_otherwise() {
    let mut ledger = collection(None);
    mint_to(&mut ledger, holder_x(), 1).unwrap();

    let results = ledger.transfer(vec![request(holder_x(), holder_y(), &[1, 3], None)]);
    assert_eq!(results, vec![unauthorized(&[3])]);
    assert_eq!(ledger.icrc7_owner_of(&id(1)), Ok(holder_x()));
}

#[test]
fn atomic_request_with_a_repeated_token_is_abandoned() {
    let mut ledger = collection(None);
    mint_to(&mut ledger, holder_x(), 1).unwrap();
    mint_to(&mut ledger, holder_x(), 2).unwrap();

    let results = ledger.transfer(vec![request(holder_x(), holder_y(), &[2, 1, 2], Some(true))]);
    assert_eq!(results, vec![unauthorized(&[2])]);
    assert_eq!(ledger.icrc7_tokens_of(&holder_x()), ids(&[1, 2]));
}

#[test]
fn repeated_token_moves_again_when_sender_is_recipient() {
    let mut ledger = collection(None);
    mint_to(&mut ledger, holder_x(), 1).unwrap();
    mint_to(&mut ledger, holder_x(), 2).unwrap();

    let results = ledger.transfer(vec![request(holder_x(), holder_x(), &[1, 1], Some(true))]);
    assert_eq!(results, vec![Ok(id(1)), Ok(id(1))]);
    assert_eq!(ledger.icrc7_tokens_of(&holder_x()), ids(&[2, 1]));
}

#[test]
fn requests_of_a_batch_are_independent() {
    let mut ledger = collection(None);
    mint_to(&mut ledger, holder_x(), 1).unwrap();
    mint_to(&mut ledger, holder_x(), 2).unwrap();
    mint_to(&mut ledger, holder_x(), 3).unwrap();

    let results = ledger.transfer(vec![
        request(holder_x(), holder_y(), &[1], Some(true)),
        request(holder_x(), holder_y(), &[2, 9], Some(true)),
        request(holder_y(), holder_x(), &[1, 2], Some(false)),
        request(holder_x(), holder_y(), &[3], Some(true)),
    ]);
    assert_eq!(
        results,
        vec![
            Ok(id(1)),
            unauthorized(&[9]),
            Ok(id(1)),
            unauthorized(&[2]),
            Ok(id(3)),
        ]
    );
    assert_eq!(ledger.icrc7_tokens_of(&holder_x()), ids(&[2, 1]));
    assert_eq!(ledger.icrc7_tokens_of(&holder_y()), ids(&[3]));
    assert_eq!(ledger.icrc7_total_supply(), 3);
}

#[test]
fn empty_batch_and_empty_request_report_nothing() {
    let mut ledger = collection(None);
    mint_to(&mut ledger, holder_x(), 1).unwrap();
    assert_eq!(ledger.transfer(vec![]), vec![]);
    assert_eq!(
        ledger.transfer(vec![request(holder_x(), holder_y(), &[], Some(true))]),
        vec![]
    );
    assert_eq!(ledger.icrc7_tokens_of(&holder_x()), ids(&[1]));
}

#[test]
fn tokens_are_listed_in_order_of_acquisition() {
    let mut ledger = collection(None);
    mint_to(&mut ledger, holder_x(), 3).unwrap();
    mint_to(&mut ledger, holder_y(), 2).unwrap();
    mint_to(&mut ledger, holder_x(), 1).unwrap();
    assert_eq!(ledger.icrc7_tokens_of(&holder_x()), ids(&[3, 1]));

    ledger.transfer(vec![request(holder_y(), holder_x(), &[2], Some(true))]);
    assert_eq!(ledger.icrc7_tokens_of(&holder_x()), ids(&[3, 1, 2]));

    ledger.transfer(vec![request(holder_x(), holder_y(), &[3], Some(true))]);
    assert_eq!(ledger.icrc7_tokens_of(&holder_x()), ids(&[1, 2]));
    assert_eq!(ledger.icrc7_tokens_of(&holder_y()), ids(&[3]));
}

#[test]
fn burn_of_unminted_or_burned_token_is_not_found() {
    let mut ledger = collection(None);
    assert_eq!(ledger.burn(id(1)), Err(BurnError::NotFound));

    mint_to(&mut ledger, holder_x(), 1).unwrap();
    mint_to(&mut ledger, holder_x(), 2).unwrap();
    assert_eq!(ledger.burn(id(1)), Ok(id(1)));
    assert_eq!(ledger.burn(id(1)), Err(BurnError::NotFound));

    assert_eq!(ledger.icrc7_total_supply(), 1);
    assert_eq!(ledger.icrc7_tokens_of(&holder_x()), ids(&[2]));
    assert_eq!(ledger.icrc7_owner_of(&id(1)), Err(QueryError::NotFound));
    assert_eq!(ledger.icrc7_metadata(&id(1)), None);
}

#[test]
fn burned_token_can_be_minted_again() {
    let mut ledger = collection(Some(1));
    mint_to(&mut ledger, holder_x(), 1).unwrap();
    ledger.burn(id(1)).unwrap();
    assert_eq!(mint_to(&mut ledger, holder_y(), 1), Ok(id(1)));
    assert_eq!(ledger.icrc7_owner_of(&id(1)), Ok(holder_y()));
}

#[test]
fn supply_counts_the_minted_tokens() {
    let mut ledger = collection(Some(3));
    for token in [10u64, 20, 30] {
        mint_to(&mut ledger, holder_x(), token).unwrap();
    }
    assert_eq!(ledger.icrc7_total_supply(), 3);
    ledger.burn(id(20)).unwrap();
    assert_eq!(ledger.icrc7_total_supply(), 2);
    ledger.transfer(vec![request(holder_x(), holder_y(), &[10], None)]);
    assert_eq!(ledger.icrc7_total_supply(), 2);
    assert_eq!(
        ledger.icrc7_balance_of(&holder_x()) + ledger.icrc7_balance_of(&holder_y()),
        2
    );
}

#[test]
fn accounts_of_one_owner_are_separate_holders() {
    let mut ledger = collection(None);
    let main = holder_x();
    let side = Account {
        owner: Principal::anonymous(),
        subaccount: Some([9; 32]),
    };
    mint_to(&mut ledger, main.clone(), 1).unwrap();
    let results = ledger.transfer(vec![request(side.clone(), holder_y(), &[1], Some(true))]);
    assert_eq!(results, vec![unauthorized(&[1])]);
    let results = ledger.transfer(vec![request(main.clone(), side.clone(), &[1], Some(true))]);
    assert_eq!(results, vec![Ok(id(1))]);
    assert_eq!(ledger.icrc7_owner_of(&id(1)), Ok(side));
    assert_eq!(ledger.icrc7_balance_of(&main), 0);
}

#[test]
fn token_ids_beyond_machine_integers_are_tokens_too() {
    let mut ledger = collection(None);
    let big = TokenId::from_digits(vec![1, 2, 3, 4]);
    let minted = ledger.mint(MintArgs {
        to: holder_x(),
        token_id: big.clone(),
        metadata: vec![],
    });
    assert_eq!(minted, Ok(big.clone()));
    assert_eq!(ledger.icrc7_owner_of(&big), Ok(holder_x()));
    assert_eq!(ledger.burn(big.clone()), Ok(big));
}
