use spin_core::codec::{write_str, write_u128, write_u32, write_u64};
use spin_core::context::ExecutionContext;
use spin_core::env::Env;
use spin_core::hashing::sha256;
use spin_core::outcome::ExecutionOutcome;
use spin_core::primitives::{AccountId, ContractCall, Error, SetStorageRequest};
use spin_core::runtime::{execute, GuestProgram, Host};
use spin_core::storage::Storage;
use spin_core::syscalls::handle_set_storage;

const FUEL: u64 = 16;
const GAS: u64 = 100_000_000;

fn account(name: &str) -> AccountId {
    AccountId::new(name.to_string())
}

fn demo_host() -> Host {
    let mut host = Host::new();
    host.register_contract(account("counter.spin"), GuestProgram::Counter);
    host.register_contract(account("fibonacci.spin"), GuestProgram::Fibonacci);
    host.register_contract(account("token.spin"), GuestProgram::Token);
    host.register_contract(account("demo_ccc.spin"), GuestProgram::DemoCcc);
    host.register_contract(account("playground.spin"), GuestProgram::Playground);
    host
}

fn run(
    host: &mut Host,
    contract: &str,
    method: &str,
    args: Vec<u8>,
    signer: &str,
    gas: u64,
) -> Result<ExecutionOutcome, Error> {
    let call = ContractCall::new(
        account(contract),
        method.to_string(),
        args,
        gas,
        account(signer),
        account(signer),
    );
    let mut ctx = ExecutionContext::new(call);
    let session = execute(host, &mut ctx, FUEL)?;
    Ok(ExecutionOutcome::try_from_bytes(session.journal).unwrap())
}

#[test]
fn counter_init_add_get() {
    let mut host = demo_host();
    run(&mut host, "counter.spin", "init", Vec::new(), "alice.spin", GAS).unwrap();
    run(&mut host, "counter.spin", "add", Vec::new(), "alice.spin", GAS).unwrap();
    run(&mut host, "counter.spin", "add", Vec::new(), "alice.spin", GAS).unwrap();
    let third = run(&mut host, "counter.spin", "add", Vec::new(), "alice.spin", GAS).unwrap();

    let mut three = Vec::new();
    write_u64(&mut three, 3);
    // the write set has exactly one key, committed at the final value
    assert_eq!(third.storage_writes.entries.len(), 1);
    assert_eq!(third.storage_writes.entries[0].0, "state");
    assert_eq!(third.storage_writes.entries[0].1, sha256(&three));
    // the host now stores those bytes
    assert_eq!(host.storage.read("counter.spin", "state"), Some(&three));

    let get = run(&mut host, "counter.spin", "get", Vec::new(), "alice.spin", GAS).unwrap();
    assert_eq!(get.output, three);
}

#[test]
fn fibonacci_of_ten() {
    let mut host = demo_host();
    let mut args = Vec::new();
    write_u32(&mut args, 10);
    let outcome = run(&mut host, "fibonacci.spin", "fibonacci", args, "alice.spin", GAS).unwrap();
    let mut expected = Vec::new();
    write_u64(&mut expected, 55);
    assert_eq!(outcome.output, expected);
    assert_eq!(outcome.storage_reads.entries.len(), 0);
    assert_eq!(outcome.storage_writes.entries.len(), 0);
    assert_eq!(outcome.cross_calls_hashes.len(), 0);
}

#[test]
fn fibonacci_and_multiply() {
    let mut host = demo_host();
    let mut args = Vec::new();
    write_u32(&mut args, 10);
    write_u64(&mut args, 3);
    let outcome = run(
        &mut host,
        "demo_ccc.spin",
        "fibonacci_and_multiply",
        args,
        "alice.spin",
        GAS,
    )
        .unwrap();
    let mut expected = Vec::new();
    write_u64(&mut expected, 165);
    assert_eq!(outcome.output, expected);
    assert_eq!(outcome.cross_calls_hashes.len(), 1);

    // the recorded call hash is the digest of the child's canonical call
    let mut child_args = Vec::new();
    write_u32(&mut child_args, 10);
    let child_call = ContractCall::new(
        account("fibonacci.spin"),
        "fibonacci".to_string(),
        child_args,
        10_000,
        account("demo_ccc.spin"),
        account("alice.spin"),
    );
    assert_eq!(outcome.cross_calls_hashes[0].0, sha256(&child_call.into_bytes()));
    // and the output hash is the digest of the child's committed output
    let mut child_output = Vec::new();
    write_u64(&mut child_output, 55);
    assert_eq!(outcome.cross_calls_hashes[0].1, sha256(&child_output));
    // the outcome commits to its own call too
    let parent_call = ContractCall::new(
        account("demo_ccc.spin"),
        "fibonacci_and_multiply".to_string(),
        {
            let mut a = Vec::new();
            write_u32(&mut a, 10);
            write_u64(&mut a, 3);
            a
        },
        GAS,
        account("alice.spin"),
        account("alice.spin"),
    );
    assert_eq!(outcome.call_hash, sha256(&parent_call.into_bytes()));
}

fn balance_of(host: &mut Host, who: &str) -> u128 {
    let mut args = Vec::new();
    write_str(&mut args, who);
    let outcome = run(host, "token.spin", "balance_of", args, who, GAS).unwrap();
    let mut bytes = [0u8; 16];
    bytes.copy_from_slice(&outcome.output);
    u128::from_le_bytes(bytes)
}

#[test]
fn token_transfer() {
    let mut host = demo_host();
    let mut init_args = Vec::new();
    write_str(&mut init_args, "SPIN");
    write_u128(&mut init_args, 100);
    run(&mut host, "token.spin", "init", init_args, "alice.spin", GAS).unwrap();
    assert_eq!(balance_of(&mut host, "alice.spin"), 100);

    let mut transfer_args = Vec::new();
    write_str(&mut transfer_args, "bob.spin");
    write_u128(&mut transfer_args, 10);
    run(&mut host, "token.spin", "transfer", transfer_args, "alice.spin", GAS).unwrap();
    assert_eq!(balance_of(&mut host, "alice.spin"), 90);
    assert_eq!(balance_of(&mut host, "bob.spin"), 10);

    // an unaffordable transfer fails the guest: no outcome, nothing persisted
    let mut too_much = Vec::new();
    write_str(&mut too_much, "bob.spin");
    write_u128(&mut too_much, 1000);
    match run(&mut host, "token.spin", "transfer", too_much, "alice.spin", GAS) {
        Err(Error::GuestPanic) => {}
        _ => panic!("an unaffordable transfer must fail the guest"),
    }
    assert_eq!(balance_of(&mut host, "alice.spin"), 90);
    assert_eq!(balance_of(&mut host, "bob.spin"), 10);
}

#[test]
fn token_owner_and_supply() {
    let mut host = demo_host();
    let mut init_args = Vec::new();
    write_str(&mut init_args, "SPIN");
    write_u128(&mut init_args, 100);
    run(&mut host, "token.spin", "init", init_args, "alice.spin", GAS).unwrap();

    let owner = run(&mut host, "token.spin", "get_owner", Vec::new(), "bob.spin", GAS).unwrap();
    let mut expected = Vec::new();
    write_str(&mut expected, "alice.spin");
    assert_eq!(owner.output, expected);

    // only the owner may mint
    let mut mint_args = Vec::new();
    write_u128(&mut mint_args, 5);
    match run(&mut host, "token.spin", "mint", mint_args, "bob.spin", GAS) {
        Err(Error::GuestPanic) => {}
        _ => panic!("a stranger must not mint"),
    }
    let mut mint_args = Vec::new();
    write_u128(&mut mint_args, 5);
    run(&mut host, "token.spin", "mint", mint_args, "alice.spin", GAS).unwrap();
    assert_eq!(balance_of(&mut host, "alice.spin"), 105);

    let mut burn_args = Vec::new();
    write_u128(&mut burn_args, 25);
    run(&mut host, "token.spin", "burn", burn_args, "alice.spin", GAS).unwrap();
    assert_eq!(balance_of(&mut host, "alice.spin"), 80);
}

#[test]
fn gas_exhaustion_refuses_the_child() {
    let mut host = demo_host();
    let mut args = Vec::new();
    write_u32(&mut args, 10);
    write_u64(&mut args, 3);
    // the parent requests a 10_000-gas child out of a far smaller pool
    match run(&mut host, "demo_ccc.spin", "fibonacci_and_multiply", args, "alice.spin", 500) {
        Err(Error::InsufficientGas) => {}
        other => panic!("expected the gas refusal, got {:?}", other.map(|o| o.output)),
    }
}

#[test]
fn hash_tamper_is_rejected() {
    let mut storage = Storage::new();
    let contract = account("counter.spin");
    let tampered = SetStorageRequest {
        key: "k".to_string(),
        hash: sha256(b"something else"),
        storage: b"v".to_vec(),
    };
    match handle_set_storage(&mut storage, &contract, &tampered.into_bytes()) {
        Err(Error::HashMismatch) => {}
        _ => panic!("a tampered hash must abort the write"),
    }
    assert!(storage.read("counter.spin", "k").is_none());
}

#[test]
fn unknown_contract_and_method() {
    let mut host = demo_host();
    match run(&mut host, "missing.spin", "init", Vec::new(), "alice.spin", GAS) {
        Err(Error::ContractNotFound) => {}
        _ => panic!("an unregistered account must not load"),
    }
    match run(&mut host, "counter.spin", "frobnicate", Vec::new(), "alice.spin", GAS) {
        Err(Error::UnknownMethod) => {}
        _ => panic!("an unknown method must fail the guest"),
    }
}

#[test]
fn playground_greets_the_signer() {
    let mut host = demo_host();
    let outcome =
        run(&mut host, "playground.spin", "hello", Vec::new(), "alice.spin", GAS).unwrap();
    let mut expected = Vec::new();
    write_str(&mut expected, "Hello, alice.spin!");
    assert_eq!(outcome.output, expected);
}

#[test]
fn read_your_writes_and_read_stability() {
    let storage = Storage::new();
    let call = ContractCall::new(
        account("counter.spin"),
        "get".to_string(),
        Vec::new(),
        GAS,
        account("alice.spin"),
        account("alice.spin"),
    );
    let mut env = Env::new_from_call(&call);
    // read-your-writes: the cache answers with the written value even
    // though the host has nothing under the key
    env.set_storage("k".to_string(), vec![1, 2, 3]);
    assert_eq!(env.get_storage(&storage, "k").unwrap(), Some(vec![1, 2, 3]));
    // read stability: two reads observe equal bytes
    let mut filled = Storage::new();
    filled.write("counter.spin".to_string(), "x".to_string(), vec![9]);
    let first = env.get_storage(&filled, "x").unwrap();
    let second = env.get_storage(&filled, "x").unwrap();
    assert_eq!(first, Some(vec![9]));
    assert_eq!(first, second);
}

#[test]
fn outcome_call_hash_commits_to_the_call() {
    let mut host = demo_host();
    let outcome = run(&mut host, "counter.spin", "init", Vec::new(), "alice.spin", GAS).unwrap();
    let call = ContractCall::new(
        account("counter.spin"),
        "init".to_string(),
        Vec::new(),
        GAS,
        account("alice.spin"),
        account("alice.spin"),
    );
    assert_eq!(outcome.call_hash, sha256(&call.into_bytes()));
}

#[test]
fn storage_writes_match_host_state() {
    let mut host = demo_host();
    let outcome = run(&mut host, "counter.spin", "init", Vec::new(), "alice.spin", GAS).unwrap();
    for (key, digest) in outcome.storage_writes.entries.iter() {
        let stored = host.storage.read("counter.spin", key).unwrap();
        assert_eq!(digest, &sha256(stored));
    }
}

#[test]
fn demo_greets_a_named_caller() {
    let mut host = demo_host();
    let mut args = Vec::new();
    write_str(&mut args, "bob.spin");
    let outcome = run(&mut host, "demo_ccc.spin", "hello", args, "alice.spin", GAS).unwrap();
    let mut expected = Vec::new();
    write_str(&mut expected, "Hello, bob.spin!");
    assert_eq!(outcome.output, expected);
}
