use spin_core::codec::{
    read_bytes, read_opt_bytes, read_str, read_u128, read_u32, read_u64, write_bytes,
    write_opt_bytes, write_str, write_u128, write_u32, write_u64,
};
use spin_core::hashing::{
    bytes_to_hex_string, digest_eq, digest_to_str, journal_to_str, seal_to_str, sha256,
};
use spin_core::outcome::{DigestMap, ExecutionOutcome};
use spin_core::primitives::{
    AccountId, CallEnv, ContractCall, Error, GetStorageRequest, GetStorageResponse,
    SetStorageRequest,
};
use spin_core::sorted_map::SortedMap;

#[test]
fn u32_little_endian_bytes() {
    let mut out: Vec<u8> = Vec::new();
    write_u32(&mut out, 0x0102_0304);
    assert_eq!(out, vec![0x04, 0x03, 0x02, 0x01]);
    let (v, p) = read_u32(out.as_slice(), 0).unwrap();
    assert_eq!(v, 0x0102_0304);
    assert_eq!(p, 4);
}

#[test]
fn u64_round_trip() {
    let mut out: Vec<u8> = Vec::new();
    write_u64(&mut out, 55);
    assert_eq!(out, vec![55, 0, 0, 0, 0, 0, 0, 0]);
    let (v, _) = read_u64(out.as_slice(), 0).unwrap();
    assert_eq!(v, 55);
}

#[test]
fn u128_round_trip() {
    let mut out: Vec<u8> = Vec::new();
    write_u128(&mut out, 340_282_366_920_938_463_463_374_607_431_768_211_455u128);
    let (v, p) = read_u128(out.as_slice(), 0).unwrap();
    assert_eq!(v, u128::MAX);
    assert_eq!(p, 16);
}

#[test]
fn bytes_and_strings_round_trip() {
    let mut out: Vec<u8> = Vec::new();
    write_bytes(&mut out, &[9, 8, 7]);
    write_str(&mut out, "alice.spin");
    let (b, p1) = read_bytes(out.as_slice(), 0).unwrap();
    assert_eq!(b, vec![9, 8, 7]);
    let (s, _) = read_str(out.as_slice(), p1).unwrap();
    assert_eq!(s, "alice.spin");
}

#[test]
fn string_prefix_is_length() {
    let mut out: Vec<u8> = Vec::new();
    write_str(&mut out, "ab");
    assert_eq!(out, vec![2, 0, 0, 0, b'a', b'b']);
}

#[test]
fn option_bytes_round_trip() {
    let mut out: Vec<u8> = Vec::new();
    write_opt_bytes(&mut out, &None);
    write_opt_bytes(&mut out, &Some(vec![1, 2]));
    let (o1, p1) = read_opt_bytes(out.as_slice(), 0).unwrap();
    assert_eq!(o1, None);
    let (o2, _) = read_opt_bytes(out.as_slice(), p1).unwrap();
    assert_eq!(o2, Some(vec![1, 2]));
}

#[test]
fn invalid_utf8_is_rejected() {
    // a length-prefixed byte string that is not valid UTF-8
    let bad = vec![2, 0, 0, 0, 0xff, 0xfe];
    assert!(read_str(bad.as_slice(), 0).is_none());
}

#[test]
fn contract_call_round_trip() {
    let call = ContractCall::new(
        AccountId::new("token.spin".to_string()),
        "transfer".to_string(),
        vec![1, 2, 3],
        100_000,
        AccountId::new("alice.spin".to_string()),
        AccountId::new("alice.spin".to_string()),
    );
    let bytes = call.into_bytes();
    let back = ContractCall::try_from_bytes(bytes).unwrap();
    assert_eq!(back.account.to_string(), "token.spin");
    assert_eq!(back.method, "transfer");
    assert_eq!(back.args, vec![1, 2, 3]);
    assert_eq!(back.attached_gas, 100_000);
    assert_eq!(back.sender.to_string(), "alice.spin");
    assert_eq!(back.signer.to_string(), "alice.spin");
}

#[test]
fn call_env_round_trip() {
    let env = CallEnv {
        signer: AccountId::new("alice.spin".to_string()),
        caller: AccountId::new("bob.spin".to_string()),
        contract: AccountId::new("counter.spin".to_string()),
        attached_gas: 42,
    };
    let back = CallEnv::try_from_bytes(env.into_bytes()).unwrap();
    assert_eq!(back.signer.to_string(), "alice.spin");
    assert_eq!(back.caller.to_string(), "bob.spin");
    assert_eq!(back.contract.to_string(), "counter.spin");
    assert_eq!(back.attached_gas, 42);
}

#[test]
fn get_storage_request_is_raw_key() {
    let req = GetStorageRequest { key: "state".to_string() };
    assert_eq!(req.into_bytes(), b"state".to_vec());
    let back = GetStorageRequest::try_from_bytes(b"state".to_vec()).unwrap();
    assert_eq!(back.key, "state");
}

#[test]
fn get_storage_response_round_trip() {
    let value = vec![3, 0, 0, 0, 0, 0, 0, 0];
    let resp = GetStorageResponse { storage: Some(value.clone()), hash: sha256(&value) };
    let back = GetStorageResponse::try_from_bytes(resp.into_bytes()).unwrap();
    assert_eq!(back.storage, Some(value.clone()));
    assert!(digest_eq(&back.hash, &sha256(&value)));
}

#[test]
fn set_storage_request_round_trip() {
    let req = SetStorageRequest {
        key: "k".to_string(),
        hash: sha256(b"v"),
        storage: b"v".to_vec(),
    };
    let back = SetStorageRequest::try_from_bytes(req.into_bytes()).unwrap();
    assert_eq!(back.key, "k");
    assert_eq!(back.storage, b"v".to_vec());
    assert!(digest_eq(&back.hash, &sha256(b"v")));
}

#[test]
fn execution_outcome_round_trip() {
    let mut reads: DigestMap = SortedMap::new();
    reads.set("state".to_string(), sha256(b"old"));
    let mut writes: DigestMap = SortedMap::new();
    writes.set("state".to_string(), sha256(b"new"));
    writes.set("another".to_string(), sha256(b"x"));
    let outcome = ExecutionOutcome {
        call_hash: sha256(b"call"),
        output: vec![7, 7],
        storage_reads: reads,
        storage_writes: writes,
        cross_calls_hashes: vec![(sha256(b"c1"), sha256(b"o1"))],
    };
    let bytes = outcome.into_bytes();
    let back = ExecutionOutcome::try_from_bytes(bytes).unwrap();
    assert!(digest_eq(&back.call_hash, &sha256(b"call")));
    assert_eq!(back.output, vec![7, 7]);
    assert_eq!(back.storage_reads.entries.len(), 1);
    assert_eq!(back.storage_reads.entries[0].0, "state");
    assert_eq!(back.storage_writes.entries.len(), 2);
    // key-sorted canonical order
    assert_eq!(back.storage_writes.entries[0].0, "another");
    assert_eq!(back.storage_writes.entries[1].0, "state");
    assert_eq!(back.cross_calls_hashes.len(), 1);
    assert!(digest_eq(&back.cross_calls_hashes[0].0, &sha256(b"c1")));
    assert!(digest_eq(&back.cross_calls_hashes[0].1, &sha256(b"o1")));
}

#[test]
fn sha256_matches_the_hashing_crate() {
    let d = sha256(b"abc");
    let expected: [u8; 32] = <sha2::Sha256 as sha2::Digest>::digest(b"abc").into();
    assert_eq!(d, expected.to_vec());
    assert_eq!(
        bytes_to_hex_string(&d),
        "ba7816bf8f01cfea414140de5dae2223b00361a396177a9cb410ff61f20015ad"
    );
}

#[test]
fn hex_rendering() {
    assert_eq!(bytes_to_hex_string(&[0xde, 0xad, 0x00, 0x0f]), "dead000f");
    assert_eq!(bytes_to_hex_string(&[]), "");
}

#[test]
fn evm_account_name() {
    let mut address = [0u8; 20];
    address[0] = 0x0f;
    address[19] = 0x01;
    let account = AccountId::new_evm(&address);
    assert_eq!(account.to_string(), "0x0f00000000000000000000000000000000000001.evm");
}

#[test]
fn hex_renderers_with_marker() {
    assert_eq!(journal_to_str(&vec![0xde, 0xad]), "0xdead");
    assert_eq!(seal_to_str(&vec![0x0102_0304, 0xffff_0000]), "0x01020304ffff0000");
    assert_eq!(
        digest_to_str(&sha256(b"abc")),
        "0xba7816bf8f01cfea414140de5dae2223b00361a396177a9cb410ff61f20015ad"
    );
}

#[test]
fn garbage_bytes_are_malformed() {
    match ContractCall::try_from_bytes(vec![0xff, 0x01]) {
        Err(Error::MalformedRequest) => {}
        _ => panic!("garbage must not decode as a call"),
    }
    match ExecutionOutcome::try_from_bytes(vec![1, 2, 3]) {
        Err(Error::MalformedRequest) => {}
        _ => panic!("garbage must not decode as an outcome"),
    }
}
