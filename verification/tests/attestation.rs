use reli::base::attestation::{sign_payload, verify_payload};

#[test]
fn signature_verification_roundtrip_passes() {
    let signature = sign_payload(b"reli-payload", "worker-001", "key-1");
    assert!(verify_payload(&signature, b"reli-payload"));
}

#[test]
fn signature_verification_fails_for_tampered_payload() {
    let signature = sign_payload(b"payload-a", "worker-001", "key-1");
    assert!(!verify_payload(&signature, b"payload-b"));
}

#[test]
fn signature_is_sha256_of_signer_key_and_payload() {
    let signature = sign_payload(b"reli-payload", "worker-001", "key-1");
    assert_eq!(signature.signer_id, "worker-001");
    assert_eq!(signature.key_id, "key-1");
    assert_eq!(
        signature.signature_hex,
        "2b6869b3d3be604e500ca01666534ab0b87591dfccf378d3ad808f0dfa8157f1"
    );
}
