use spin_core::context::ExecutionContext;
use spin_core::primitives::{AccountId, ContractCall, CrossContractCallRequest, Error};
use spin_core::runtime::{gas_from_segments, pow2_exec};
use spin_core::storage::Storage;
use spin_core::syscalls::{handle_get_storage, handle_set_storage};
use spin_core::hashing::sha256;
use spin_core::transaction::{Block, TransactionBuilder};

fn call(attached_gas: u64) -> ContractCall {
    ContractCall::new(
        AccountId::new("counter.spin".to_string()),
        "get".to_string(),
        Vec::new(),
        attached_gas,
        AccountId::new("alice.spin".to_string()),
        AccountId::new("alice.spin".to_string()),
    )
}

#[test]
fn available_gas_subtracts_used_and_children() {
    let mut ctx = ExecutionContext::new(call(1000));
    assert_eq!(ctx.available_gas(), 1000);
    ctx.set_gas_usage(100);
    assert_eq!(ctx.available_gas(), 900);
    let req = CrossContractCallRequest::new(
        AccountId::new("fibonacci.spin".to_string()),
        "fibonacci".to_string(),
        Vec::new(),
        300,
    );
    ctx.cross_contract_call(req).unwrap();
    // the child has not run yet, so the pool is unchanged
    assert_eq!(ctx.available_gas(), 900);
    let mut child = ctx.pop_child().unwrap();
    child.set_gas_usage(250);
    ctx.push_child(child);
    assert_eq!(ctx.available_gas(), 650);
}

#[test]
fn available_gas_saturates_at_zero() {
    let mut ctx = ExecutionContext::new(call(10));
    ctx.set_gas_usage(25);
    assert_eq!(ctx.available_gas(), 0);
}

#[test]
fn spawn_rejects_unaffordable_attachment() {
    let mut ctx = ExecutionContext::new(call(100));
    let req = CrossContractCallRequest::new(
        AccountId::new("fibonacci.spin".to_string()),
        "fibonacci".to_string(),
        Vec::new(),
        101,
    );
    match ctx.cross_contract_call(req) {
        Err(Error::InsufficientGas) => {}
        _ => panic!("an attachment above the pool must be refused"),
    }
    assert_eq!(ctx.children_count(), 0);
}

#[test]
fn spawned_child_borrows_identity() {
    let mut ctx = ExecutionContext::new(call(100_000));
    let req = CrossContractCallRequest::new(
        AccountId::new("token.spin".to_string()),
        "transfer".to_string(),
        vec![1],
        5_000,
    );
    ctx.cross_contract_call(req).unwrap();
    let child = ctx.pop_child().unwrap();
    assert_eq!(child.call().account.to_string(), "token.spin");
    assert_eq!(child.call().method, "transfer");
    assert_eq!(child.call().attached_gas, 5_000);
    // the sender is the parent's contract; the signer is borrowed
    assert_eq!(child.call().sender.to_string(), "counter.spin");
    assert_eq!(child.call().signer.to_string(), "alice.spin");
    assert_eq!(child.used_gas(), 0);
}

#[test]
fn gas_is_two_to_the_summed_segment_sizes() {
    assert_eq!(pow2_exec(0), 1);
    assert_eq!(pow2_exec(10), 1024);
    assert_eq!(gas_from_segments(&vec![0]), Some(1));
    assert_eq!(gas_from_segments(&vec![3, 4]), Some(128));
    assert_eq!(gas_from_segments(&vec![32, 32]), None);
}

#[test]
fn storage_reads_back_what_was_written() {
    let mut storage = Storage::new();
    assert!(storage.read("counter.spin", "state").is_none());
    storage.write("counter.spin".to_string(), "state".to_string(), vec![1, 2]);
    assert_eq!(storage.read("counter.spin", "state"), Some(&vec![1, 2]));
    // another contract's namespace is untouched
    assert!(storage.read("token.spin", "state").is_none());
    storage.write("counter.spin".to_string(), "state".to_string(), vec![9]);
    assert_eq!(storage.read("counter.spin", "state"), Some(&vec![9]));
}

#[test]
fn set_storage_verifies_the_hash() {
    let mut storage = Storage::new();
    let contract = AccountId::new("counter.spin".to_string());
    let good = spin_core::primitives::SetStorageRequest {
        key: "k".to_string(),
        hash: sha256(b"v"),
        storage: b"v".to_vec(),
    };
    let digest = handle_set_storage(&mut storage, &contract, &good.into_bytes()).unwrap();
    assert_eq!(digest, sha256(b"v"));
    assert_eq!(storage.read("counter.spin", "k"), Some(&b"v".to_vec()));
}

#[test]
fn get_storage_reports_value_and_hash() {
    let mut storage = Storage::new();
    let contract = AccountId::new("counter.spin".to_string());
    storage.write("counter.spin".to_string(), "k".to_string(), b"v".to_vec());
    let resp_bytes = handle_get_storage(&storage, &contract, &b"k".to_vec()).unwrap();
    let resp = spin_core::primitives::GetStorageResponse::try_from_bytes(resp_bytes).unwrap();
    assert_eq!(resp.storage, Some(b"v".to_vec()));
    assert_eq!(resp.hash, sha256(b"v"));
    // a missing key is not an error: absence and the empty string's hash
    let resp_bytes = handle_get_storage(&storage, &contract, &b"missing".to_vec()).unwrap();
    let resp = spin_core::primitives::GetStorageResponse::try_from_bytes(resp_bytes).unwrap();
    assert_eq!(resp.storage, None);
    assert_eq!(resp.hash, sha256(b""));
}

#[test]
fn account_mapping_knows_the_bootstrap_identities() {
    let alice = AccountId::new("alice.spin".to_string());
    let address = ExecutionContext::get_account_evm_address(&alice).unwrap();
    let mut expected = vec![0x0F, 0xF1, 0xCE];
    expected.extend_from_slice(&[0; 16]);
    expected.push(0x01);
    assert_eq!(address, expected);
    let eve = AccountId::new("eve.spin".to_string());
    assert_eq!(ExecutionContext::get_account_evm_address(&eve).unwrap()[19], 0x04);
    let nobody = AccountId::new("nobody.spin".to_string());
    match ExecutionContext::get_account_evm_address(&nobody) {
        Err(Error::UnknownAccount) => {}
        _ => panic!("an unknown account must be a fatal error"),
    }
}

#[test]
fn transaction_builder_seals_a_hashed_body() {
    let genesis = Block {
        height: 1,
        hash: vec![0; 32],
        parent_hash: vec![0; 32],
        timestamp: 0,
        txs: Vec::new(),
    };
    let tx = TransactionBuilder::new(
        AccountId::new("token.spin".to_string()),
        "init".to_string(),
        vec![1],
        100,
        AccountId::new("alice.spin".to_string()),
        &genesis,
    )
        .set_nonce(7)
        .build();
    assert_eq!(tx.body.deadline, 10);
    assert_eq!(tx.body.nonce, 7);
    assert_eq!(tx.hash, sha256(&tx.body.into_bytes()));
    let with_deadline = TransactionBuilder::new(
        AccountId::new("token.spin".to_string()),
        "init".to_string(),
        vec![1],
        100,
        AccountId::new("alice.spin".to_string()),
        &genesis,
    )
        .set_deadline(99)
        .build();
    assert_eq!(with_deadline.body.deadline, 99);
}

#[test]
fn guest_env_resolves_addresses() {
    let call = call(1_000);
    let env = spin_core::env::Env::new_from_call(&call);
    let address = env.get_evm_address(AccountId::new("bob.spin".to_string())).unwrap();
    assert_eq!(address.len(), 20);
    assert_eq!(address[19], 0x02);
    match env.get_evm_address(AccountId::new("stranger.spin".to_string())) {
        Err(Error::UnknownAccount) => {}
        _ => panic!("an unknown account must be a fatal error"),
    }
}

#[test]
fn get_env_serializes_the_call_environment() {
    let ctx = ExecutionContext::new(ContractCall::new(
        AccountId::new("counter.spin".to_string()),
        "get".to_string(),
        Vec::new(),
        1_000,
        AccountId::new("bob.spin".to_string()),
        AccountId::new("alice.spin".to_string()),
    ));
    let bytes = spin_core::syscalls::handle_get_env(&ctx);
    let env = spin_core::primitives::CallEnv::try_from_bytes(bytes).unwrap();
    assert_eq!(env.signer.to_string(), "alice.spin");
    assert_eq!(env.caller.to_string(), "bob.spin");
    assert_eq!(env.contract.to_string(), "counter.spin");
    assert_eq!(env.attached_gas, 1_000);
}
