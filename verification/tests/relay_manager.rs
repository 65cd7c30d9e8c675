use nft_bridge::account::{Account, Principal};
use nft_bridge::ledger::{BurnError, MintArgs, MintError, NFTContract};
use nft_bridge::manager::{
    BurnReceipt, BurnRun, Cause, Manager, ManagerError, MintRun, Notice, SourceCollectionArgs, Step,
};
use nft_bridge::message::{
    check_response, decimal_text, http_request_required_cycles, Message, OpType, TransportError,
};
use nft_bridge::metadata::{MetadataEntry, Value};
use nft_bridge::registry::NFTFactory;
use nft_bridge::relay::{
    answer_of_burn, answer_of_mint, metadata_from_fields, mint_args_from_message, parse_metadata,
    Answer, DeliveryPlan, Execution, MetadataParseError, Relay, RelayError,
};
use nft_bridge::token_id::TokenId;

const EVM_CHAIN: u64 = 31337;
const ICP_CHAIN: u64 = 2;

fn id(n: u64) -> TokenId {
    TokenId::from_u64(n)
}

fn recipient() -> Account {
    Account::of(Principal::anonymous())
}

fn text_entry(key: &str, text: &str) -> MetadataEntry {
    MetadataEntry {
        key: key.to_string(),
        value: Value::Text(text.to_string()),
    }
}

fn inbound(nonce: u64, op_type: u8, token_id: u64) -> Message {
    Message {
        id: format!("m-{}", nonce),
        nonce,
        op_type,
        src_chain_id: EVM_CHAIN,
        dest_chain_id: ICP_CHAIN,
        dest_address: "2vxsx-fae".to_string(),
        contract_address: "0x0000000000000000000000000000000000000002".to_string(),
        collection_name: "Originals".to_string(),
        collection_symbol: "ORG".to_string(),
        token_id,
        token_metadata: "{\"artist\":\"Ann\",\"name\":\"Art\"}".to_string(),
    }
}

fn empty_ledger(cap: Option<u64>) -> NFTContract {
    NFTContract::configured(
        "Originals".to_string(),
        "ORG".to_string(),
        None,
        None,
        cap,
        None,
        None,
        vec![],
    )
}

fn manager_id() -> Principal {
    Principal::from_text("be2us-64aaa-aaaaa-qaabq-cai").unwrap()
}

fn collection_id() -> Principal {
    Principal::from_text("bd3sg-teaaa-aaaaa-qaaba-cai").unwrap()
}

fn source() -> SourceCollectionArgs {
    SourceCollectionArgs {
        address: "0xabc".to_string(),
        name: "Originals".to_string(),
        symbol: "ORG".to_string(),
    }
}

#[test]
fn operation_codes_round_trip() {
    assert_eq!(OpType::Mint.code(), 0);
    assert_eq!(OpType::Transfer.code(), 1);
    assert_eq!(OpType::Burn.code(), 2);
    assert_eq!(OpType::from_code(0), Some(OpType::Mint));
    assert_eq!(OpType::from_code(1), Some(OpType::Transfer));
    assert_eq!(OpType::from_code(2), Some(OpType::Burn));
    assert_eq!(OpType::from_code(3), None);
    assert_eq!(OpType::from_code(255), None);
}

#[test]
fn decimal_text_of_numbers() {
    assert_eq!(decimal_text(0), "0");
    assert_eq!(decimal_text(7), "7");
    assert_eq!(decimal_text(10), "10");
    assert_eq!(decimal_text(1234567890), "1234567890");
    assert_eq!(decimal_text(u64::MAX), "18446744073709551615");
}

#[test]
fn response_is_accepted_only_with_status_200() {
    assert_eq!(check_response(200), Ok(()));
    assert_eq!(
        check_response(201),
        Err(TransportError::Rejected { status: 201 })
    );
    assert_eq!(
        check_response(500),
        Err(TransportError::Rejected { status: 500 })
    );
    assert_eq!(check_response(0), Err(TransportError::Rejected { status: 0 }));
}

#[test]
fn cycles_for_an_http_request() {
    assert_eq!(http_request_required_cycles(None, 100), 21_860_103_200);
    assert_eq!(http_request_required_cycles(Some(1024), 100), 60_372_000);
    assert_eq!(http_request_required_cycles(Some(0), 0), 49_202_400);
    assert_eq!(
        http_request_required_cycles(Some(u64::MAX), u64::MAX),
        (3_780_000u128 + (u64::MAX as u128 + 12) * 400 + (u64::MAX as u128) * 800) * 13
    );
}

#[test]
fn acknowledgement_goes_back_where_the_message_came_from() {
    let msg = inbound(1, 0, 7);
    let ack = msg.acknowledgement();
    assert_eq!(ack.src_chain_id, ICP_CHAIN);
    assert_eq!(ack.dest_chain_id, EVM_CHAIN);
    let mut expected = msg.clone();
    expected.src_chain_id = ICP_CHAIN;
    expected.dest_chain_id = EVM_CHAIN;
    assert_eq!(ack, expected);
}

#[test]
fn metadata_payload_of_texts_is_read() {
    assert_eq!(
        parse_metadata("{\"artist\":\"Ann\",\"name\":\"Art\"}"),
        Ok(vec![text_entry("artist", "Ann"), text_entry("name", "Art")])
    );
    assert_eq!(parse_metadata("{}"), Ok(vec![]));
    assert_eq!(
        parse_metadata(" { \"k\" : \"a \\\"quoted\\\" word\" } "),
        Ok(vec![text_entry("k", "a \"quoted\" word")])
    );
}

#[test]
fn metadata_payload_that_is_malformed_is_refused() {
    assert_eq!(parse_metadata(""), Err(MetadataParseError));
    assert_eq!(parse_metadata("{\"name\":"), Err(MetadataParseError));
    assert_eq!(parse_metadata("name=Art"), Err(MetadataParseError));
    assert_eq!(parse_metadata("[]"), Err(MetadataParseError));
    assert_eq!(parse_metadata("\"Art\""), Err(MetadataParseError));
    assert_eq!(parse_metadata("{\"edition\":1}"), Err(MetadataParseError));
    assert_eq!(
        parse_metadata("{\"name\":\"Art\",\"tags\":[\"a\"]}"),
        Err(MetadataParseError)
    );
}

#[test]
fn metadata_from_members() {
    let members = vec![
        ("b".to_string(), Some("2".to_string())),
        ("a".to_string(), Some("1".to_string())),
    ];
    assert_eq!(
        metadata_from_fields(&members),
        Ok(vec![text_entry("b", "2"), text_entry("a", "1")])
    );
    let mixed = vec![
        ("b".to_string(), Some("2".to_string())),
        ("a".to_string(), None),
    ];
    assert_eq!(metadata_from_fields(&mixed), Err(MetadataParseError));
    assert_eq!(metadata_from_fields(&vec![]), Ok(vec![]));
}

#[test]
fn mint_request_of_a_message() {
    assert_eq!(
        mint_args_from_message(&inbound(1, 0, 7)),
        Ok(MintArgs {
            to: recipient(),
            token_id: id(7),
            metadata: vec![text_entry("artist", "Ann"), text_entry("name", "Art")],
        })
    );

    let mut bad_address = inbound(1, 0, 7);
    bad_address.dest_address = "0x0000000000000000000000000000000000000001".to_string();
    assert_eq!(
        mint_args_from_message(&bad_address),
        Err(RelayError::InvalidAddress)
    );

    let mut bad_metadata = inbound(1, 0, 7);
    bad_metadata.token_metadata = "".to_string();
    assert_eq!(
        mint_args_from_message(&bad_metadata),
        Err(RelayError::MetadataParseError)
    );

    let mut bad_both = bad_address;
    bad_both.token_metadata = "{".to_string();
    assert_eq!(
        mint_args_from_message(&bad_both),
        Err(RelayError::MetadataParseError)
    );
}

#[test]
fn mint_message_mints_and_is_acknowledged() {
    let mut relay = Relay::new(ICP_CHAIN);
    let mut ledger = empty_ledger(None);
    let msg = inbound(1, 0, 7);

    let done = relay.execute_message(&mut ledger, &msg);
    assert_eq!(
        done,
        Execution {
            outcome: Ok(7),
            acknowledgement: Some(msg.acknowledgement()),
            duplicate: false,
        }
    );
    assert_eq!(ledger.icrc7_total_supply(), 1);
    assert_eq!(ledger.icrc7_owner_of(&id(7)), Ok(recipient()));
    assert_eq!(
        ledger.icrc7_metadata(&id(7)),
        Some(&vec![text_entry("artist", "Ann"), text_entry("name", "Art")])
    );
    assert_eq!(relay.lookup(EVM_CHAIN, 1, 0), Some(Ok(7)));
    assert_eq!(relay.lookup(EVM_CHAIN, 1, 2), None);
    assert_eq!(relay.lookup(EVM_CHAIN, 2, 0), None);
    assert_eq!(relay.lookup(ICP_CHAIN, 1, 0), None);
}

#[test]
fn message_delivered_twice_has_one_effect() {
    let mut relay = Relay::new(ICP_CHAIN);
    let mut ledger = empty_ledger(None);
    let msg = inbound(1, 0, 7);

    let first = relay.execute_message(&mut ledger, &msg);
    let second = relay.execute_message(&mut ledger, &msg);
    assert_eq!(first.outcome, Ok(7));
    assert_eq!(second.outcome, first.outcome);
    assert_eq!(second.acknowledgement, first.acknowledgement);
    assert!(!first.duplicate);
    assert!(second.duplicate);
    assert_eq!(ledger.icrc7_total_supply(), 1);
    assert_eq!(ledger.icrc7_tokens_of(&recipient()), vec![id(7)]);
}

#[test]
fn same_token_under_a_new_nonce_is_a_new_message() {
    let mut relay = Relay::new(ICP_CHAIN);
    let mut ledger = empty_ledger(None);
    relay.execute_message(&mut ledger, &inbound(1, 0, 7));

    let again = relay.execute_message(&mut ledger, &inbound(2, 0, 7));
    assert_eq!(
        again,
        Execution {
            outcome: Err(RelayError::Mint(MintError::AlreadyExists)),
            acknowledgement: None,
            duplicate: false,
        }
    );
    assert_eq!(ledger.icrc7_total_supply(), 1);
}

#[test]
fn recorded_failure_is_repeated_as_it_was() {
    let mut relay = Relay::new(ICP_CHAIN);
    let mut ledger = empty_ledger(None);

    let burn = inbound(5, 2, 7);
    let first = relay.execute_message(&mut ledger, &burn);
    assert_eq!(
        first.outcome,
        Err(RelayError::Burn(BurnError::NotFound))
    );
    assert_eq!(first.acknowledgement, None);

    relay.execute_message(&mut ledger, &inbound(6, 0, 7));
    assert_eq!(ledger.icrc7_total_supply(), 1);

    let second = relay.execute_message(&mut ledger, &burn);
    assert_eq!(second.outcome, first.outcome);
    assert!(second.duplicate);
    assert_eq!(ledger.icrc7_total_supply(), 1);
}

#[test]
fn burn_message_burns_once() {
    let mut relay = Relay::new(ICP_CHAIN);
    let mut ledger = empty_ledger(None);
    relay.execute_message(&mut ledger, &inbound(1, 0, 7));

    let burn = inbound(1, 2, 7);
    let first = relay.execute_message(&mut ledger, &burn);
    assert_eq!(first.outcome, Ok(7));
    assert_eq!(first.acknowledgement, Some(burn.acknowledgement()));
    assert!(!first.duplicate);
    assert_eq!(ledger.icrc7_total_supply(), 0);

    relay.execute_message(&mut ledger, &inbound(2, 0, 7));
    assert_eq!(ledger.icrc7_total_supply(), 1);

    let second = relay.execute_message(&mut ledger, &burn);
    assert_eq!(second.outcome, Ok(7));
    assert!(second.duplicate);
    assert_eq!(ledger.icrc7_total_supply(), 1);
}

#[test]
fn messages_that_ask_for_nothing_a_ledger_does() {
    let mut relay = Relay::new(ICP_CHAIN);
    let mut ledger = empty_ledger(Some(1));

    assert_eq!(
        relay.execute_message(&mut ledger, &inbound(1, 9, 7)).outcome,
        Err(RelayError::UnknownOperation)
    );
    assert_eq!(
        relay.execute_message(&mut ledger, &inbound(2, 1, 7)).outcome,
        Err(RelayError::UnsupportedOperation)
    );

    let mut bad_metadata = inbound(3, 0, 7);
    bad_metadata.token_metadata = "{\"edition\":1}".to_string();
    assert_eq!(
        relay.execute_message(&mut ledger, &bad_metadata).outcome,
        Err(RelayError::MetadataParseError)
    );

    let mut bad_address = inbound(4, 0, 7);
    bad_address.dest_address = "nobody".to_string();
    assert_eq!(
        relay.execute_message(&mut ledger, &bad_address).outcome,
        Err(RelayError::InvalidAddress)
    );
    assert_eq!(ledger.icrc7_total_supply(), 0);

    assert_eq!(
        relay.execute_message(&mut ledger, &inbound(5, 0, 7)).outcome,
        Ok(7)
    );
    assert_eq!(
        relay.execute_message(&mut ledger, &inbound(6, 0, 8)).outcome,
        Err(RelayError::Mint(MintError::SupplyCapReached))
    );
    assert_eq!(ledger.icrc7_total_supply(), 1);
}

#[test]
fn outbound_messages_take_the_next_nonce() {
    let mut relay = Relay::new(ICP_CHAIN);
    assert!(relay.can_send());
    let first = relay
        .send_message(OpType::Burn, 7, EVM_CHAIN, "0xabc".to_string())
        .unwrap();
    assert_eq!(
        first,
        Message {
            id: "1".to_string(),
            nonce: 1,
            op_type: 2,
            src_chain_id: ICP_CHAIN,
            dest_chain_id: EVM_CHAIN,
            dest_address: "".to_string(),
            contract_address: "0xabc".to_string(),
            collection_name: "".to_string(),
            collection_symbol: "".to_string(),
            token_id: 7,
            token_metadata: "".to_string(),
        }
    );
    let second = relay
        .send_message(OpType::Mint, 8, EVM_CHAIN, "0xdef".to_string())
        .unwrap();
    assert_eq!(second.id, "2");
    assert_eq!(second.nonce, 2);
    assert_eq!(second.op_type, 0);
    assert_eq!(second.contract_address, "0xdef");
}

#[test]
fn manager_mint_reports_the_mint_step() {
    let mut ledger = empty_ledger(Some(1));
    let args = |token: u64| MintArgs {
        to: recipient(),
        token_id: id(token),
        metadata: vec![],
    };
    assert_eq!(Manager::mint(&mut ledger, args(1)), Ok(id(1)));
    assert_eq!(
        Manager::mint(&mut ledger, args(1)),
        Err(ManagerError {
            step: Step::Mint,
            cause: Cause::Mint(MintError::AlreadyExists)
        })
    );
    assert_eq!(
        Manager::mint(&mut ledger, args(2)),
        Err(ManagerError {
            step: Step::Mint,
            cause: Cause::Mint(MintError::SupplyCapReached)
        })
    );
}

#[test]
fn manager_token_mint_resolves_before_it_mints() {
    let mut registry = NFTFactory::new(manager_id());
    let mut ledger = empty_ledger(None);
    let args = |token: u64| MintArgs {
        to: recipient(),
        token_id: id(token),
        metadata: vec![],
    };
    let resolve = |cause: Cause| {
        Err(ManagerError {
            step: Step::ResolveCollection,
            cause,
        })
    };

    assert_eq!(
        Manager::token_mint(&mut registry, &manager_id(), source(), None, &mut ledger, args(1)),
        resolve(Cause::NotProvisioned)
    );
    assert_eq!(
        Manager::token_mint(
            &mut registry,
            &manager_id(),
            source(),
            Some(Err("out of cycles".to_string())),
            &mut ledger,
            args(1)
        ),
        resolve(Cause::ProvisioningFailed)
    );
    assert_eq!(
        Manager::token_mint(
            &mut registry,
            &Principal::anonymous(),
            source(),
            Some(Ok(collection_id())),
            &mut ledger,
            args(1)
        ),
        resolve(Cause::Forbidden)
    );
    assert_eq!(registry.get_collections(), vec![]);
    assert_eq!(ledger.icrc7_total_supply(), 0);

    assert_eq!(
        Manager::token_mint(
            &mut registry,
            &manager_id(),
            source(),
            Some(Ok(collection_id())),
            &mut ledger,
            args(1)
        ),
        Ok(id(1))
    );
    assert_eq!(
        registry.get_collections(),
        vec![("0xabc".to_string(), collection_id())]
    );

    assert_eq!(
        Manager::token_mint(
            &mut registry,
            &manager_id(),
            source(),
            Some(Ok(manager_id())),
            &mut ledger,
            args(2)
        ),
        resolve(Cause::RegistrationFailed)
    );
    assert_eq!(
        Manager::token_mint(&mut registry, &Principal::anonymous(), source(), None, &mut ledger, args(2)),
        resolve(Cause::Forbidden)
    );
    assert_eq!(
        Manager::token_mint(&mut registry, &manager_id(), source(), None, &mut ledger, args(2)),
        Ok(id(2))
    );
    assert_eq!(
        Manager::token_mint(&mut registry, &manager_id(), source(), None, &mut ledger, args(1)),
        Err(ManagerError {
            step: Step::Mint,
            cause: Cause::Mint(MintError::AlreadyExists)
        })
    );
    assert_eq!(ledger.icrc7_total_supply(), 2);
    assert_eq!(
        registry.get_collections(),
        vec![("0xabc".to_string(), collection_id())]
    );
}

#[test]
fn manager_token_mint_registers_even_where_the_mint_is_refused() {
    let mut registry = NFTFactory::new(manager_id());
    let mut ledger = empty_ledger(Some(0));
    let minted = Manager::token_mint(
        &mut registry,
        &manager_id(),
        source(),
        Some(Ok(collection_id())),
        &mut ledger,
        MintArgs {
            to: recipient(),
            token_id: id(1),
            metadata: vec![],
        },
    );
    assert_eq!(
        minted,
        Err(ManagerError {
            step: Step::Mint,
            cause: Cause::Mint(MintError::SupplyCapReached)
        })
    );
    assert_eq!(
        registry.get_nft_collection(&"0xabc".to_string()),
        Some(collection_id())
    );
}

#[test]
fn manager_token_burn_makes_the_release_message() {
    let mut registry = NFTFactory::new(manager_id());
    registry.store_nft_collection("0xabc".to_string(), collection_id());
    let mut relay = Relay::new(ICP_CHAIN);
    let mut ledger = empty_ledger(None);
    Manager::mint(
        &mut ledger,
        MintArgs {
            to: recipient(),
            token_id: id(7),
            metadata: vec![],
        },
    )
    .unwrap();

    let receipt = Manager::token_burn(
        &registry,
        &mut relay,
        &mut ledger,
        &collection_id(),
        id(7),
        EVM_CHAIN,
    );
    assert_eq!(
        receipt,
        Ok(BurnReceipt {
            token_id: id(7),
            message: Message {
                id: "1".to_string(),
                nonce: 1,
                op_type: 2,
                src_chain_id: ICP_CHAIN,
                dest_chain_id: EVM_CHAIN,
                dest_address: "".to_string(),
                contract_address: "0xabc".to_string(),
                collection_name: "".to_string(),
                collection_symbol: "".to_string(),
                token_id: 7,
                token_metadata: "".to_string(),
            },
        })
    );
    assert_eq!(ledger.icrc7_total_supply(), 0);
}

#[test]
fn manager_token_burn_reports_the_first_failing_step() {
    let mut registry = NFTFactory::new(manager_id());
    let mut relay = Relay::new(ICP_CHAIN);
    let mut ledger = empty_ledger(None);
    let big = TokenId::from_digits(vec![0, 0, 1]);

    assert_eq!(
        Manager::token_burn(&registry, &mut relay, &mut ledger, &collection_id(), id(7), EVM_CHAIN),
        Err(ManagerError {
            step: Step::LookupSource,
            cause: Cause::UnknownCollection
        })
    );
    registry.store_nft_collection("0xabc".to_string(), collection_id());
    assert_eq!(
        Manager::token_burn(
            &registry,
            &mut relay,
            &mut ledger,
            &collection_id(),
            big.clone(),
            EVM_CHAIN
        ),
        Err(ManagerError {
            step: Step::Burn,
            cause: Cause::Burn(BurnError::NotFound)
        })
    );
    assert_eq!(
        Manager::token_burn(&registry, &mut relay, &mut ledger, &collection_id(), id(8), EVM_CHAIN),
        Err(ManagerError {
            step: Step::Burn,
            cause: Cause::Burn(BurnError::NotFound)
        })
    );
    assert_eq!(ledger.icrc7_total_supply(), 0);
    let sent = relay
        .send_message(OpType::Burn, 1, EVM_CHAIN, "0xabc".to_string())
        .unwrap();
    assert_eq!(sent.nonce, 1);
}

#[test]
fn manager_token_burn_is_not_undone_by_a_failed_notification() {
    let mut registry = NFTFactory::new(manager_id());
    registry.store_nft_collection("0xabc".to_string(), collection_id());
    let mut relay = Relay::new(ICP_CHAIN);
    let mut ledger = empty_ledger(None);
    let big = TokenId::from_digits(vec![0, 0, 1]);
    for token in [id(7), big.clone()] {
        Manager::mint(
            &mut ledger,
            MintArgs {
                to: recipient(),
                token_id: token,
                metadata: vec![],
            },
        )
        .unwrap();
    }

    assert_eq!(
        Manager::token_burn(
            &registry,
            &mut relay,
            &mut ledger,
            &collection_id(),
            big.clone(),
            EVM_CHAIN
        ),
        Err(ManagerError {
            step: Step::Notify,
            cause: Cause::TokenIdOutOfRange
        })
    );
    assert_eq!(ledger.icrc7_total_supply(), 1);
    assert!(ledger.icrc7_owner_of(&big).is_err());
    assert_eq!(ledger.icrc7_owner_of(&id(7)), Ok(recipient()));
    let sent = relay
        .send_message(OpType::Burn, 1, EVM_CHAIN, "0xabc".to_string())
        .unwrap();
    assert_eq!(sent.nonce, 1);
}

#[test]
fn mint_run_takes_its_steps_in_order() {
    let args = || MintArgs {
        to: recipient(),
        token_id: id(1),
        metadata: vec![],
    };
    let run = Manager::begin_mint(source(), args());
    assert_eq!(
        run,
        MintRun::Resolving {
            source: source(),
            args: args()
        }
    );
    let waiting = Manager::mint_answered(run, Ok(id(1)));
    assert_eq!(
        waiting,
        MintRun::Resolving {
            source: source(),
            args: args()
        }
    );
    let run = Manager::mint_resolved(waiting, Ok(collection_id()));
    assert_eq!(
        run,
        MintRun::Minting {
            collection: collection_id(),
            args: args()
        }
    );
    let run = Manager::mint_resolved(run, Err(Cause::Forbidden));
    assert_eq!(
        run,
        MintRun::Minting {
            collection: collection_id(),
            args: args()
        }
    );
    let done = Manager::mint_answered(run, Ok(id(1)));
    assert_eq!(done, MintRun::Finished(Ok(id(1))));
    let done = Manager::mint_answered(done, Err(Cause::Unreachable));
    assert_eq!(done, MintRun::Finished(Ok(id(1))));
}

#[test]
fn mint_run_ends_with_the_step_that_failed() {
    let args = || MintArgs {
        to: recipient(),
        token_id: id(1),
        metadata: vec![],
    };
    let run = Manager::mint_resolved(
        Manager::begin_mint(source(), args()),
        Err(Cause::ProvisioningFailed),
    );
    assert_eq!(
        run,
        MintRun::Finished(Err(ManagerError {
            step: Step::ResolveCollection,
            cause: Cause::ProvisioningFailed
        }))
    );
    let run = Manager::mint_resolved(Manager::begin_mint(source(), args()), Ok(collection_id()));
    let run = Manager::mint_answered(run, Err(Cause::Mint(MintError::AlreadyExists)));
    assert_eq!(
        run,
        MintRun::Finished(Err(ManagerError {
            step: Step::Mint,
            cause: Cause::Mint(MintError::AlreadyExists)
        }))
    );
}

#[test]
fn burn_run_takes_its_steps_in_order() {
    let run = Manager::begin_burn(collection_id(), id(7), EVM_CHAIN);
    assert_eq!(
        run,
        BurnRun::LookingUp {
            collection: collection_id(),
            token_id: id(7),
            dest_chain_id: EVM_CHAIN
        }
    );
    let run = Manager::burn_answered(run, Ok(id(7)));
    assert!(matches!(run, BurnRun::LookingUp { .. }));
    let run = Manager::burn_looked_up(run, Ok(Some("0xabc".to_string())));
    assert_eq!(
        run,
        BurnRun::Burning {
            collection: collection_id(),
            token_id: id(7),
            source: "0xabc".to_string(),
            dest_chain_id: EVM_CHAIN
        }
    );
    let done = Manager::burn_answered(run, Ok(id(7)));
    assert_eq!(
        done,
        BurnRun::Finished {
            result: Ok(id(7)),
            notice: Some(Notice {
                op_type: OpType::Burn,
                token_id: 7,
                dest_chain_id: EVM_CHAIN,
                dest_address: "0xabc".to_string()
            })
        }
    );
}

#[test]
fn burn_run_ends_with_the_step_that_failed() {
    let failed = |step: Step, cause: Cause| BurnRun::Finished {
        result: Err(ManagerError { step, cause }),
        notice: None,
    };
    let begin = || Manager::begin_burn(collection_id(), TokenId::from_digits(vec![0, 0, 1]), EVM_CHAIN);

    assert_eq!(
        Manager::burn_looked_up(begin(), Ok(None)),
        failed(Step::LookupSource, Cause::UnknownCollection)
    );
    assert_eq!(
        Manager::burn_looked_up(begin(), Err(Cause::Unreachable)),
        failed(Step::LookupSource, Cause::Unreachable)
    );
    let burning = || Manager::burn_looked_up(begin(), Ok(Some("0xabc".to_string())));
    assert_eq!(
        Manager::burn_answered(burning(), Err(Cause::Burn(BurnError::NotFound))),
        failed(Step::Burn, Cause::Burn(BurnError::NotFound))
    );
    assert_eq!(
        Manager::burn_answered(burning(), Ok(TokenId::from_digits(vec![0, 0, 1]))),
        failed(Step::Notify, Cause::TokenIdOutOfRange)
    );
}

#[test]
fn delivery_plan_names_the_collection_of_a_mint() {
    let relay = Relay::new(ICP_CHAIN);
    assert_eq!(
        relay.plan_delivery(&inbound(1, 0, 7)),
        DeliveryPlan::Mint {
            source: SourceCollectionArgs {
                address: "0x0000000000000000000000000000000000000002".to_string(),
                name: "Originals".to_string(),
                symbol: "ORG".to_string(),
            },
            args: MintArgs {
                to: recipient(),
                token_id: id(7),
                metadata: vec![text_entry("artist", "Ann"), text_entry("name", "Art")],
            },
        }
    );
    assert_eq!(
        relay.plan_delivery(&inbound(1, 2, 7)),
        DeliveryPlan::Burn {
            contract_address: "0x0000000000000000000000000000000000000002".to_string(),
            token_id: id(7),
        }
    );
}

#[test]
fn delivery_plan_refuses_what_cannot_be_carried_out() {
    let relay = Relay::new(ICP_CHAIN);
    assert_eq!(
        relay.plan_delivery(&inbound(1, 9, 7)),
        DeliveryPlan::Refused(RelayError::UnknownOperation)
    );
    assert_eq!(
        relay.plan_delivery(&inbound(1, 1, 7)),
        DeliveryPlan::Refused(RelayError::UnsupportedOperation)
    );
    let mut bad_metadata = inbound(1, 0, 7);
    bad_metadata.token_metadata = "[]".to_string();
    assert_eq!(
        relay.plan_delivery(&bad_metadata),
        DeliveryPlan::Refused(RelayError::MetadataParseError)
    );
    let mut bad_address = inbound(1, 0, 7);
    bad_address.dest_address = "nobody".to_string();
    assert_eq!(
        relay.plan_delivery(&bad_address),
        DeliveryPlan::Refused(RelayError::InvalidAddress)
    );
    let mut burn_with_bad_metadata = inbound(1, 2, 7);
    burn_with_bad_metadata.token_metadata = "".to_string();
    assert!(matches!(
        relay.plan_delivery(&burn_with_bad_metadata),
        DeliveryPlan::Burn { .. }
    ));
}

#[test]
fn delivery_is_settled_once() {
    let mut relay = Relay::new(ICP_CHAIN);
    let msg = inbound(1, 0, 7);

    assert_eq!(relay.settle(&msg, Answer::Unavailable), None);
    assert_eq!(relay.lookup(EVM_CHAIN, 1, 0), None);
    assert!(matches!(relay.plan_delivery(&msg), DeliveryPlan::Mint { .. }));

    assert_eq!(
        relay.settle(&msg, Answer::Done),
        Some(Execution {
            outcome: Ok(7),
            acknowledgement: Some(msg.acknowledgement()),
            duplicate: false,
        })
    );
    assert_eq!(relay.plan_delivery(&msg), DeliveryPlan::Known(Ok(7)));
    assert_eq!(
        relay.settle(&msg, Answer::MintRefused(MintError::AlreadyExists)),
        Some(Execution {
            outcome: Ok(7),
            acknowledgement: Some(msg.acknowledgement()),
            duplicate: true,
        })
    );
    assert_eq!(
        relay.settle(&msg, Answer::Unavailable),
        Some(Execution {
            outcome: Ok(7),
            acknowledgement: Some(msg.acknowledgement()),
            duplicate: true,
        })
    );
}

#[test]
fn delivery_is_settled_with_the_refusal_of_the_ledger() {
    let mut relay = Relay::new(ICP_CHAIN);
    assert_eq!(
        relay.settle(&inbound(1, 0, 7), Answer::MintRefused(MintError::SupplyCapReached)),
        Some(Execution {
            outcome: Err(RelayError::Mint(MintError::SupplyCapReached)),
            acknowledgement: None,
            duplicate: false,
        })
    );
    assert_eq!(
        relay.settle(&inbound(2, 2, 7), Answer::BurnRefused(BurnError::NotFound)),
        Some(Execution {
            outcome: Err(RelayError::Burn(BurnError::NotFound)),
            acknowledgement: None,
            duplicate: false,
        })
    );
    assert_eq!(
        relay.lookup(EVM_CHAIN, 2, 2),
        Some(Err(RelayError::Burn(BurnError::NotFound)))
    );
}

#[test]
fn refused_message_is_settled_whatever_the_answer() {
    let mut relay = Relay::new(ICP_CHAIN);
    let mut bad = inbound(3, 0, 7);
    bad.token_metadata = "{".to_string();
    assert_eq!(
        relay.settle(&bad, Answer::Done),
        Some(Execution {
            outcome: Err(RelayError::MetadataParseError),
            acknowledgement: None,
            duplicate: false,
        })
    );
    assert_eq!(
        relay.settle(&inbound(4, 9, 7), Answer::Unavailable),
        Some(Execution {
            outcome: Err(RelayError::UnknownOperation),
            acknowledgement: None,
            duplicate: false,
        })
    );
}

#[test]
fn answers_of_the_manager_and_the_ledger() {
    let refused = |step: Step, cause: Cause| Err(ManagerError { step, cause });
    assert_eq!(answer_of_mint(&Ok(id(1))), Answer::Done);
    assert_eq!(
        answer_of_mint(&refused(Step::Mint, Cause::Mint(MintError::AlreadyExists))),
        Answer::MintRefused(MintError::AlreadyExists)
    );
    assert_eq!(
        answer_of_mint(&refused(Step::ResolveCollection, Cause::ProvisioningFailed)),
        Answer::Unavailable
    );
    assert_eq!(
        answer_of_mint(&refused(Step::Mint, Cause::Unreachable)),
        Answer::Unavailable
    );
    assert_eq!(answer_of_burn(&Ok(id(1))), Answer::Done);
    assert_eq!(
        answer_of_burn(&refused(Step::Burn, Cause::Burn(BurnError::NotFound))),
        Answer::BurnRefused(BurnError::NotFound)
    );
    assert_eq!(
        answer_of_burn(&refused(Step::LookupSource, Cause::UnknownCollection)),
        Answer::Unavailable
    );
}
