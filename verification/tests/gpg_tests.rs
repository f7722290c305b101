use trust_chain::err::TrustChainErrorKind;
use trust_chain::gpg::{Gpg, PublicKey, SignedFilePath};

fn path() -> SignedFilePath {
    SignedFilePath::new("/tmp/claims", "claim-1")
}

#[test]
fn signed_file_path_layout() {
    let p = path();
    assert_eq!(p.data_path, "/tmp/claims/claim-1");
    assert_eq!(p.sig_path, "/tmp/claims/claim-1.sig");
}

#[test]
fn public_key_keeps_fingerprint() {
    let k = PublicKey::new(String::from("ABCDEF"));
    assert_eq!(k.fingerprint, "ABCDEF");
}

#[test]
fn verify_captures_primary_fingerprint() {
    let out = "[GNUPG:] GOODSIG 6408C89E4018270C dev\n\
               [GNUPG:] VALIDSIG B366A38296498FB36B1A44C56408C89E4018270C 2019-12-01 1575225882 0 4 0 1 10 00 5B8F59E68DA74387B3AB2761DBD433FD3D20D8F1\n";
    let key = Gpg::verify(&path(), out, true).unwrap();
    assert_eq!(key.fingerprint, "5B8F59E68DA74387B3AB2761DBD433FD3D20D8F1");
}

#[test]
fn verify_falls_back_to_signing_key() {
    let out = "[GNUPG:] VALIDSIG B366A38296498FB36B1A44C56408C89E4018270C extra\n";
    let key = Gpg::verify(&path(), out, true).unwrap();
    assert_eq!(key.fingerprint, "B366A38296498FB36B1A44C56408C89E4018270C");
}

#[test]
fn verify_fails_on_badsig() {
    let out = "[GNUPG:] BADSIG 6408C89E4018270C dev\n\
               [GNUPG:] VALIDSIG AAAA 2019-12-01 1 0 4 0 1 10 00 BBBB\n";
    let err = Gpg::verify(&path(), out, true).unwrap_err();
    assert!(matches!(err.kind, TrustChainErrorKind::InvalidSignature));
}

#[test]
fn verify_fails_on_expired_signature() {
    let out = "[GNUPG:] EXPSIG 6408C89E4018270C dev\n";
    let err = Gpg::verify(&path(), out, true).unwrap_err();
    assert!(matches!(err.kind, TrustChainErrorKind::ExpiredSignature));
}

#[test]
fn verify_fails_on_revoked_key() {
    let out = "[GNUPG:] REVKEYSIG 6408C89E4018270C dev\n";
    let err = Gpg::verify(&path(), out, true).unwrap_err();
    assert!(matches!(err.kind, TrustChainErrorKind::ExpiredKeySignature));
}

#[test]
fn verify_fails_on_malformed_signature() {
    let out = "[GNUPG:] ERRSIG 6408C89E4018270C 1 10 00 1575225882 9 -\n";
    let err = Gpg::verify(&path(), out, true).unwrap_err();
    assert!(matches!(err.kind, TrustChainErrorKind::Generic));
}

#[test]
fn verify_distinguishes_engine_failure_from_format() {
    let err = Gpg::verify(&path(), "", false).unwrap_err();
    assert!(matches!(err.kind, TrustChainErrorKind::Gpg));
    assert!(err.description.starts_with("error verifying"));
    let err = Gpg::verify(&path(), "gpg: Signature made Sun 01 Dec 2019\n", true).unwrap_err();
    assert!(matches!(err.kind, TrustChainErrorKind::Gpg));
    assert!(err.description.starts_with("unrecognized"));
}

#[test]
fn expired_key_is_informational_only() {
    let out = "[GNUPG:] EXPKEYSIG 6408C89E4018270C dev\n\
               [GNUPG:] VALIDSIG AAAA 2019-12-01 1 0 4 0 1 10 00 BBBB\n";
    let key = Gpg::verify(&path(), out, true).unwrap();
    assert_eq!(key.fingerprint, "BBBB");
}

#[test]
fn two_token_records_are_ignored() {
    let out = "[GNUPG:] BADSIG\n";
    let err = Gpg::verify(&path(), out, true).unwrap_err();
    assert!(matches!(err.kind, TrustChainErrorKind::Gpg));
}
