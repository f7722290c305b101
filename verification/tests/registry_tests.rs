use trust_chain::claim::{
    AuthenticatedClaim, ClaimFileEntry, ClaimKind, FileSystemClaimRegistry,
};
use trust_chain::codec::{
    claim_to_json, parse_claim, PersistentClaim, PersistentClaimSpecifics,
    PersistentPositiveClaimData, PersistentRevocationData,
};
use trust_chain::err::TrustChainErrorKind;
use trust_chain::gpg::Gpg;
use trust_chain::gpg::SignedFilePath;
use trust_chain::hashing::hash_bytes;
use trust_chain::util::to_hex_string;

fn registry() -> FileSystemClaimRegistry {
    FileSystemClaimRegistry::new(String::from("/registry"))
}

#[test]
fn artifact_folder_is_hex_named() {
    let reg = registry();
    let folder = reg.artifact_folder(&vec![0xab, 0xcd]);
    assert_eq!(folder, "/registry/abcd");
}

#[test]
fn claim_kind_keeps_text() {
    let k = ClaimKind::new("reviewed");
    assert_eq!(k.claim_kind, "reviewed");
}

#[test]
fn sign_claim_plan_lays_out_pipeline() {
    let reg = registry();
    let digest = hash_bytes(b"artifact");
    let hex = to_hex_string(&digest);
    let plan = reg.prepare_sign_claim(
        "/tmp",
        "com.example:mylib:1.2.3",
        &digest,
        "dev@example.org",
        "reviewed",
        Some("thorough"),
        1575225882,
    );
    assert_eq!(plan.claim_id.len(), 36);
    assert_eq!(plan.staging_name.len(), 36);
    assert_eq!(plan.staging.data_path, format!("/tmp/{}", plan.staging_name));
    assert_eq!(plan.staging.sig_path, format!("/tmp/{}.sig", plan.staging_name));
    assert_eq!(
        plan.destination.data_path,
        format!("/registry/{}/{}", hex, plan.claim_id)
    );
    assert_eq!(
        plan.destination.sig_path,
        format!("/registry/{}/{}.sig", hex, plan.claim_id)
    );
    let doc = parse_claim(&plan.document).expect("plan document is canonical");
    assert_eq!(doc.id, plan.claim_id);
    assert_eq!(doc.uid, "dev@example.org");
    assert_eq!(doc.artifact_id, "com.example:mylib:1.2.3");
    assert_eq!(doc.artifact_hash, hex);
    assert_eq!(doc.comment, None);
    assert_eq!(doc.timestamp, 1575225882);
    match doc.specifics {
        PersistentClaimSpecifics::Positive(p) => {
            assert_eq!(p.claim_kind, "reviewed");
            assert_eq!(p.claim_value.as_deref(), Some("thorough"));
        }
        _ => panic!("wrong variant"),
    }
}

/// Signing then enumerating: the stored document comes back as an
/// authenticated claim with the key and value that were signed, and the
/// engine's status stream for it yields a fingerprint.
#[test]
fn signed_claim_is_enumerated_and_verifiable() {
    let reg = registry();
    let digest = hash_bytes(b"artifact");
    let plan = reg.prepare_sign_claim(
        "/tmp",
        "com.example:mylib:1.2.3",
        &digest,
        "dev@example.org",
        "reviewed",
        Some("thorough"),
        1575225882,
    );
    let entries = vec![ClaimFileEntry { contents: plan.document.clone(), signature_valid: true }];
    let claims = reg.authenticated_claims_for(entries);
    assert_eq!(claims.len(), 1);
    match &claims[0] {
        AuthenticatedClaim::Positive(p) => {
            assert_eq!(p.common_data.id, plan.claim_id);
            assert_eq!(p.common_data.uid, "dev@example.org");
            assert_eq!(p.kind.claim_kind, "reviewed");
            assert_eq!(p.value.as_deref(), Some("thorough"));
            let decoded = p
                .common_data
                .artifact_hash
                .clone();
            assert_eq!(decoded, to_hex_string(&digest));
        }
        _ => panic!("expected a positive claim"),
    }
    let digest_back = claims[0].artifact_digest().expect("hash decodes");
    assert_eq!(digest_back.hash, digest);
    let paths = reg
        .verify_claim_paths(&digest, &plan.claim_id, true)
        .expect("folder exists");
    assert_eq!(paths.data_path, plan.destination.data_path);
    let out = "[GNUPG:] VALIDSIG AAAA 2019-12-01 1 0 4 0 1 10 00 BBBB\n";
    let key = Gpg::verify(&paths, out, true).expect("valid signature");
    assert_eq!(key.fingerprint, "BBBB");
}

#[test]
fn corrupt_entry_does_not_block_enumeration() {
    let reg = registry();
    let digest = hash_bytes(b"artifact");
    let good1 = reg.prepare_sign_claim("/tmp", "g:a:v", &digest, "dev", "built", None, 1);
    let good2 = reg.prepare_sign_claim("/tmp", "g:a:v", &digest, "dev", "reviewed", None, 2);
    let entries = vec![
        ClaimFileEntry { contents: good1.document.clone(), signature_valid: true },
        ClaimFileEntry { contents: String::from("{corrupt"), signature_valid: true },
        ClaimFileEntry { contents: good2.document.clone(), signature_valid: true },
    ];
    let claims = reg.authenticated_claims_for(entries);
    assert_eq!(claims.len(), 2);
    match (&claims[0], &claims[1]) {
        (AuthenticatedClaim::Positive(a), AuthenticatedClaim::Positive(b)) => {
            assert_eq!(a.kind.claim_kind, "built");
            assert_eq!(b.kind.claim_kind, "reviewed");
        }
        _ => panic!("expected positive claims"),
    }
}

#[test]
fn unverified_signature_is_not_authenticated() {
    let reg = registry();
    let digest = hash_bytes(b"artifact");
    let plan = reg.prepare_sign_claim("/tmp", "g:a:v", &digest, "dev", "built", None, 1);
    let entries = vec![ClaimFileEntry { contents: plan.document.clone(), signature_valid: false }];
    let claims = reg.authenticated_claims_for(entries);
    assert!(claims.is_empty());
}

fn stored_positive(id: &str, uid: &str) -> PersistentClaim {
    PersistentClaim {
        id: String::from(id),
        uid: String::from(uid),
        artifact_id: String::from("g:a:v"),
        artifact_hash: String::from("00"),
        comment: None,
        timestamp: 1,
        specifics: PersistentClaimSpecifics::Positive(PersistentPositiveClaimData {
            claim_kind: String::from("built"),
            claim_value: None,
        }),
    }
}

fn stored_revocation(id: &str, uid: &str, revoked: &str) -> PersistentClaim {
    PersistentClaim {
        id: String::from(id),
        uid: String::from(uid),
        artifact_id: String::from("g:a:v"),
        artifact_hash: String::from("00"),
        comment: None,
        timestamp: 2,
        specifics: PersistentClaimSpecifics::Revocation(PersistentRevocationData {
            revoked_id: String::from(revoked),
        }),
    }
}

#[test]
fn revocation_requires_existing_claim_by_same_signer() {
    let stored = vec![stored_positive("claim-1", "dev")];
    assert!(FileSystemClaimRegistry::check_revocation_allowed(&stored, "claim-1", "dev").is_ok());
    let err = FileSystemClaimRegistry::check_revocation_allowed(&stored, "claim-2", "dev")
        .unwrap_err();
    assert!(matches!(err.kind, TrustChainErrorKind::ClaimNotFound));
    let err = FileSystemClaimRegistry::check_revocation_allowed(&stored, "claim-1", "mallory")
        .unwrap_err();
    assert!(matches!(err.kind, TrustChainErrorKind::ClaimNotFound));
}

#[test]
fn revocation_rejects_double_revocation() {
    let stored = vec![
        stored_positive("claim-1", "dev"),
        stored_revocation("claim-9", "dev", "claim-1"),
    ];
    let err = FileSystemClaimRegistry::check_revocation_allowed(&stored, "claim-1", "dev")
        .unwrap_err();
    assert!(matches!(err.kind, TrustChainErrorKind::Claims));
}

#[test]
fn revoke_plan_builds_revocation_document() {
    let reg = registry();
    let digest = hash_bytes(b"artifact");
    let stored = vec![stored_positive("claim-1", "dev")];
    let plan = reg
        .prepare_revoke_claim("/tmp", "g:a:v", &digest, "dev", "claim-1", 7, &stored)
        .expect("revocation is allowed");
    let doc = parse_claim(&plan.document).expect("plan document is canonical");
    assert_eq!(doc.uid, "dev");
    match doc.specifics {
        PersistentClaimSpecifics::Revocation(r) => assert_eq!(r.revoked_id, "claim-1"),
        _ => panic!("wrong variant"),
    }
}

#[test]
fn missing_folder_means_claim_not_found() {
    let reg = registry();
    let err = reg
        .verify_claim_paths(&vec![0x01], "claim-1", false)
        .unwrap_err();
    assert!(matches!(err.kind, TrustChainErrorKind::ClaimNotFound));
    let ok = reg.verify_claim_paths(&vec![0x01], "claim-1", true).unwrap();
    assert_eq!(ok.data_path, "/registry/01/claim-1");
    assert_eq!(ok.sig_path, "/registry/01/claim-1.sig");
}

#[test]
fn serialized_claim_survives_storage_shape() {
    let claim = stored_positive("claim-1", "dev");
    let json = claim_to_json(&claim);
    let back = parse_claim(&json).unwrap();
    let auth = back.into_authenticated_claim();
    match auth {
        AuthenticatedClaim::Positive(p) => {
            assert_eq!(p.common_data.id, "claim-1");
            assert_eq!(p.common_data.artifact_identifier, "g:a:v");
        }
        _ => panic!("wrong variant"),
    }
}

#[test]
fn tampered_document_fails_verification() {
    // Flipping a byte of a stored claim's data file makes the engine report
    // BADSIG for its detached signature; that surfaces as InvalidSignature.
    let paths = SignedFilePath::new("/registry/ab", "claim-1");
    let out = "[GNUPG:] BADSIG 6408C89E4018270C dev\n";
    let err = Gpg::verify(&paths, out, true).unwrap_err();
    assert!(matches!(err.kind, TrustChainErrorKind::InvalidSignature));
}
