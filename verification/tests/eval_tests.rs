use trust_chain::artifacts::ArtifactId;
use trust_chain::checker::{Checker, CheckerConfig};
use trust_chain::claim::{
    AuthenticatedClaim, ClaimKind, CommonClaimData, PositiveClaimData, RevocationClaimData,
};
use trust_chain::eval::{
    active_claims, CountingTrustPolicy, FixedTrustPolicy, TrustLevel, TrustPolicy,
    TRUST_LEVEL_UNIT,
};
use trust_chain::hashing::hash_bytes;

fn common(id: &str) -> CommonClaimData {
    CommonClaimData {
        id: String::from(id),
        uid: String::from("dev"),
        artifact_identifier: String::from("g:a:v"),
        artifact_hash: String::from("00"),
        comment: None,
        timestamp: 1,
    }
}

fn positive(id: &str, kind: &str) -> AuthenticatedClaim {
    AuthenticatedClaim::Positive(PositiveClaimData {
        common_data: common(id),
        kind: ClaimKind::new(kind),
        value: None,
    })
}

fn revocation(id: &str, revoked: &str) -> AuthenticatedClaim {
    AuthenticatedClaim::Revocation(RevocationClaimData {
        common_data: common(id),
        revoked_id: String::from(revoked),
    })
}

#[test]
fn trust_level_bounds() {
    assert!(TrustLevel::try_new(0).is_some());
    assert!(TrustLevel::try_new(TRUST_LEVEL_UNIT).is_some());
    assert!(TrustLevel::try_new(TRUST_LEVEL_UNIT + 1).is_none());
}

#[test]
fn trust_level_order() {
    let low = TrustLevel::new(100);
    let high = TrustLevel::new(900);
    assert_eq!(low.cmp(&high), std::cmp::Ordering::Less);
    assert_eq!(high.cmp(&low), std::cmp::Ordering::Greater);
    assert_eq!(low.cmp(&TrustLevel::new(100)), std::cmp::Ordering::Equal);
    assert!(high.ge(&low));
    assert!(!low.ge(&high));
}

#[test]
fn revoked_claim_is_evaluated_as_absent() {
    let set = vec![positive("x", "reviewed"), revocation("r1", "x")];
    let active = active_claims(&set);
    assert!(active.is_empty());
}

#[test]
fn revocation_is_permanent_and_targeted() {
    let set = vec![
        positive("x", "reviewed"),
        revocation("r1", "x"),
        positive("z", "built"),
    ];
    let active = active_claims(&set);
    assert_eq!(active.len(), 1);
    match &active[0] {
        AuthenticatedClaim::Positive(p) => assert_eq!(p.common_data.id, "z"),
        _ => panic!("expected the untouched claim"),
    }
}

#[test]
fn counting_policy_counts_active_claims() {
    let policy = CountingTrustPolicy {};
    let none: Vec<AuthenticatedClaim> = Vec::new();
    assert_eq!(policy.evaluate(&none).thousandths, 0);
    let two = vec![positive("a", "built"), positive("b", "reviewed")];
    assert_eq!(policy.evaluate(&two).thousandths, 500);
    let five = vec![
        positive("a", "k1"),
        positive("b", "k2"),
        positive("c", "k3"),
        positive("d", "k4"),
        positive("e", "k5"),
    ];
    assert_eq!(policy.evaluate(&five).thousandths, TRUST_LEVEL_UNIT);
    let revoked_pair = vec![positive("a", "k1"), revocation("r", "a")];
    assert_eq!(policy.evaluate(&revoked_pair).thousandths, 0);
}

#[test]
fn check_passes_when_level_reaches_threshold() {
    let checker = Checker::new(
        CheckerConfig { pass_threshold: TrustLevel::new(500) },
        FixedTrustPolicy { level: TrustLevel::new(900) },
    );
    let artifact = ArtifactId::from_digest(hash_bytes(b"artifact"));
    let result = checker.check(artifact, &Vec::new());
    assert!(result.passed);
    assert_eq!(result.artifact_id.hash, hash_bytes(b"artifact"));
}

#[test]
fn check_fails_when_level_misses_threshold() {
    let checker = Checker::new(
        CheckerConfig { pass_threshold: TrustLevel::new(500) },
        FixedTrustPolicy { level: TrustLevel::new(100) },
    );
    let artifact = ArtifactId::from_digest(hash_bytes(b"artifact"));
    let result = checker.check(artifact, &Vec::new());
    assert!(!result.passed);
}
