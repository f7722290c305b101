use vstd::prelude::*;
use crate::artifacts::ArtifactId;
use crate::claim::AuthenticatedClaim;
use crate::eval::{active_claim_seq, claims_view, TrustLevel, TrustPolicy};

verus! {

/// What a check compares against: the threshold an artifact's trust level
/// must reach.
pub struct CheckerConfig {
    pub pass_threshold: TrustLevel,
}

/// The checked artifact and whether its trust level reached the threshold.
pub struct CheckResult {
    pub artifact_id: ArtifactId,
    pub passed: bool,
}

/// Evaluates an artifact's authenticated claims under a policy and gates the
/// result against the configured threshold.
pub struct Checker<P: TrustPolicy> {
    pub config: CheckerConfig,
    pub trust_policy: P,
}

impl<P: TrustPolicy> Checker<P> {
    pub fn new(config: CheckerConfig, trust_policy: P) -> (r: Checker<P>)
        ensures
            r.config == config,
            r.trust_policy == trust_policy,
    {
        Checker { config, trust_policy }
    }

    /// The verdict passes exactly when the policy's level over the active
    /// claims reaches the threshold.
    pub fn check(&self, artifact_id: ArtifactId, claims: &Vec<AuthenticatedClaim>) -> (r:
        CheckResult)
        ensures
            r.artifact_id == artifact_id,
            r.passed == (self.trust_policy.evaluate_spec(
                active_claim_seq(claims_view(claims@)),
            ).value() >= self.config.pass_threshold.value()),
    {
        let level = self.trust_policy.evaluate(claims);
        let passed = level.ge(&self.config.pass_threshold);
        CheckResult { artifact_id, passed }
    }
}

} // verus!
