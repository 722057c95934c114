use scalpel::concat::{append_signature, derive_output_filename};
use scalpel::errors::SigningError;
use scalpel::signature::{signed_file_roundtrip, signing_roundtrip, Signer, SIGNATURE_LENGTH};

#[test]
fn test_append_signature() {
    let signer = Signer::new();

    // random content generation
    let byte_victim: Vec<u8> = (0..1000).map(|_| rand::random::<u8>()).collect();
    let signature = signer
        .calculate_signature_from_bytes(&byte_victim)
        .expect("Signing failed");
    let signed = append_signature(&byte_victim, &signature).expect("Appending signature failed.");

    // the signature must be the trailing bytes of the signed content
    let ref_sig = signature.as_slice();
    let read_sig = &signed[signed.len() - ref_sig.len()..];
    println!("{}", read_sig.len());

    assert_eq!(ref_sig[..], read_sig[..]);
}

#[test]
fn test_keys_pk8() {
    let generated = Signer::new();
    let blob = generated.keypair.clone().expect("Should work right?");
    let signer = Signer::read_pk8(blob).expect("Should work right?");

    let content: Vec<u8> = (0..500).map(|i| (i % 256) as u8).collect();
    let signature = signer
        .calculate_signature_from_bytes(&content)
        .expect("Signing failed");

    let signed = append_signature(&content, &signature).expect("Failed to append signature");

    assert!(signer.verify_file(&signed).is_ok());
}

#[test]
fn sign_verify_accepts_the_message() {
    let signer = Signer::new();
    let msg: Vec<u8> = b"an arbitrary byte sequence".to_vec();
    let sig = signer
        .calculate_signature_from_bytes(&msg)
        .expect("signing failed");
    assert_eq!(sig.len(), SIGNATURE_LENGTH);
    assert!(signer.verify_bytes(&msg, &sig).is_ok());
}

#[test]
fn sign_verify_rejects_a_flipped_message_bit() {
    let signer = Signer::new();
    let msg: Vec<u8> = (0..300).map(|_| rand::random::<u8>()).collect();
    let sig = signer
        .calculate_signature_from_bytes(&msg)
        .expect("signing failed");
    for byte in [0usize, 150, 299] {
        let mut tampered = msg.clone();
        tampered[byte] ^= 0x01;
        assert_eq!(
            signer.verify_bytes(&tampered, &sig),
            Err(SigningError::SignatureVerificationError)
        );
    }
}

#[test]
fn sign_verify_rejects_a_flipped_signature_bit() {
    let signer = Signer::new();
    let msg: Vec<u8> = (0..300).map(|_| rand::random::<u8>()).collect();
    let sig = signer
        .calculate_signature_from_bytes(&msg)
        .expect("signing failed");
    for byte in 0..SIGNATURE_LENGTH {
        let mut tampered = sig.clone();
        tampered[byte] ^= 0x80;
        assert_eq!(
            signer.verify_bytes(&msg, &tampered),
            Err(SigningError::SignatureVerificationError)
        );
    }
}

#[test]
fn signing_roundtrip_law_holds() {
    let signer = Signer::new();
    let msg: Vec<u8> = b"round trip".to_vec();
    assert!(signing_roundtrip(&signer, &msg));
}

#[test]
fn signed_file_roundtrip_law_holds() {
    let signer = Signer::new();
    let content: Vec<u8> = vec![42];
    assert!(signed_file_roundtrip(&signer, &content));
}

#[test]
fn verify_file_rejects_short_content() {
    let signer = Signer::new();
    for len in [0usize, 1, 63, 64] {
        let content: Vec<u8> = vec![0u8; len];
        assert_eq!(
            signer.verify_file(&content),
            Err(SigningError::ContentError)
        );
    }
}

#[test]
fn truncated_signed_file_is_content_error() {
    let signer = Signer::new();
    let content: Vec<u8> = (0..200).map(|_| rand::random::<u8>()).collect();
    let sig = signer
        .calculate_signature_from_bytes(&content)
        .expect("signing failed");
    let mut signed = append_signature(&content, &sig).expect("framing failed");
    signed.truncate(SIGNATURE_LENGTH);
    assert_eq!(
        signer.verify_file(&signed),
        Err(SigningError::ContentError)
    );
}

#[test]
fn signer_without_key_cannot_sign() {
    let signer = Signer { keypair: None };
    let msg: Vec<u8> = vec![1, 2, 3];
    assert_eq!(
        signer.calculate_signature_from_bytes(&msg),
        Err(SigningError::ArgumentError)
    );
    let sig: Vec<u8> = vec![0u8; SIGNATURE_LENGTH];
    assert_eq!(
        signer.verify_bytes(&msg, &sig),
        Err(SigningError::ArgumentError)
    );
}

#[test]
fn read_pk8_rejects_garbage() {
    let blob: Vec<u8> = vec![1, 2, 3, 4, 5];
    assert!(matches!(
        Signer::read_pk8(blob),
        Err(SigningError::ParseKeyError)
    ));
}

#[test]
fn append_signature_rejects_wrong_length() {
    let content: Vec<u8> = vec![1, 2, 3];
    let sig: Vec<u8> = vec![0u8; 63];
    assert_eq!(
        append_signature(&content, &sig),
        Err(SigningError::ArgumentError)
    );
}

#[test]
fn derived_filename_inserts_before_extension() {
    let name = b"tmp/signme.bin".to_vec();
    assert_eq!(derive_output_filename(&name), b"tmp/signme-signed.bin".to_vec());
}

#[test]
fn derived_filename_appends_without_extension() {
    let name = b"tmp/signme".to_vec();
    assert_eq!(derive_output_filename(&name), b"tmp/signme-signed".to_vec());
}

#[test]
fn derived_filename_splits_at_last_dot() {
    let name = b"a.b.c".to_vec();
    assert_eq!(derive_output_filename(&name), b"a.b-signed.c".to_vec());
}

#[test]
fn derived_filename_with_leading_dot() {
    let name = b".bashrc".to_vec();
    assert_eq!(derive_output_filename(&name), b"-signed.bashrc".to_vec());
}
