use vstd::prelude::*;
use crate::claim::{common_of, AuthClaimV, AuthenticatedClaim};

verus! {

/// How many thousandths make up full trust.
pub const TRUST_LEVEL_UNIT: u32 = 1000;

/// A scalar in the closed unit interval, held in thousandths; totally
/// ordered by numeric comparison.
#[derive(Clone, Copy, Debug, PartialEq, Eq, Structural)]
pub struct TrustLevel {
    pub thousandths: u32,
}

impl TrustLevel {
    /// Whether the level lies in the unit interval.
    pub open spec fn wf(self) -> bool {
        self.thousandths <= TRUST_LEVEL_UNIT
    }

    /// The level as a count of thousandths.
    pub open spec fn value(self) -> int {
        self.thousandths as int
    }

    /// A level from a count of thousandths; a count beyond one whole is no
    /// level.
    pub fn new(thousandths: u32) -> (r: TrustLevel)
        requires
            thousandths <= TRUST_LEVEL_UNIT,
        ensures
            r.value() == thousandths,
            r.wf(),
    {
        TrustLevel { thousandths }
    }

    /// A level from a count of thousandths, rejecting one beyond the
    /// interval.
    pub fn try_new(thousandths: u32) -> (r: Option<TrustLevel>)
        ensures
            r matches Some(l) ==> l.value() == thousandths && l.wf(),
            r is Some <==> thousandths <= TRUST_LEVEL_UNIT,
    {
        if thousandths <= TRUST_LEVEL_UNIT {
            Some(TrustLevel { thousandths })
        } else {
            None
        }
    }

    /// Numeric comparison of two levels.
    pub fn cmp(&self, other: &TrustLevel) -> (r: core::cmp::Ordering)
        ensures
            r is Less <==> self.value() < other.value(),
            r is Greater <==> self.value() > other.value(),
            r is Equal <==> self.value() == other.value(),
    {
        if self.thousandths < other.thousandths {
            core::cmp::Ordering::Less
        } else if self.thousandths > other.thousandths {
            core::cmp::Ordering::Greater
        } else {
            core::cmp::Ordering::Equal
        }
    }

    /// Whether this level reaches the other.
    pub fn ge(&self, other: &TrustLevel) -> (r: bool)
        ensures
            r == (self.value() >= other.value()),
    {
        self.thousandths >= other.thousandths
    }
}

/// The id a claim carries.
pub open spec fn claim_id_of(c: AuthClaimV) -> Seq<char> {
    common_of(c).id
}

/// The ids that some revocation in the set references.
pub open spec fn revoked_ids(cs: Seq<AuthClaimV>) -> Set<Seq<char>> {
    Set::new(
        |id: Seq<char>|
            exists|i: int|
                0 <= i < cs.len() && (#[trigger] cs[i] matches AuthClaimV::Revocation {
                    revoked_id,
                    ..
                } && revoked_id == id),
    )
}

/// A claim counts only if it is positive and no revocation in the set
/// references its id. A revoked claim stays revoked for good.
pub open spec fn is_active(c: AuthClaimV, cs: Seq<AuthClaimV>) -> bool {
    c is Positive && !revoked_ids(cs).contains(claim_id_of(c))
}

pub open spec fn active_from(cs: Seq<AuthClaimV>, all: Seq<AuthClaimV>) -> Seq<AuthClaimV>
    decreases cs.len(),
{
    if cs.len() == 0 {
        Seq::empty()
    } else {
        let rest = active_from(cs.drop_first(), all);
        if is_active(cs[0], all) {
            seq![cs[0]] + rest
        } else {
            rest
        }
    }
}

/// The subsequence of claims that still count: the positive claims no
/// revocation references, in order.
pub open spec fn active_claim_seq(cs: Seq<AuthClaimV>) -> Seq<AuthClaimV> {
    active_from(cs, cs)
}

/// The view of a vector of claims.
pub open spec fn claims_view(claims: Seq<AuthenticatedClaim>) -> Seq<AuthClaimV> {
    claims.map_values(|c: AuthenticatedClaim| c@)
}

proof fn lemma_active_from_snoc(cs: Seq<AuthClaimV>, x: AuthClaimV, all: Seq<AuthClaimV>)
    ensures
        active_from(cs + seq![x], all) == if is_active(x, all) {
            active_from(cs, all) + seq![x]
        } else {
            active_from(cs, all)
        },
    decreases cs.len(),
{
    if cs.len() == 0 {
        assert(cs + seq![x] =~= seq![x]);
        assert(seq![x].drop_first() =~= Seq::<AuthClaimV>::empty());
        assert(active_from(Seq::<AuthClaimV>::empty(), all) == Seq::<AuthClaimV>::empty());
        if is_active(x, all) {
            assert(active_from(cs + seq![x], all) =~= active_from(cs, all) + seq![x]);
        } else {
            assert(active_from(cs + seq![x], all) =~= active_from(cs, all));
        }
    } else {
        assert((cs + seq![x]).drop_first() =~= cs.drop_first() + seq![x]);
        lemma_active_from_snoc(cs.drop_first(), x, all);
        if is_active(x, all) {
            assert(active_from(cs + seq![x], all) =~= active_from(cs, all) + seq![x]);
        } else {
            assert(active_from(cs + seq![x], all) =~= active_from(cs, all));
        }
    }
}

/// Drops every claim that a revocation in the set references, and the
/// revocations themselves: what remains is what evaluation may see.
pub fn active_claims(claims: &Vec<AuthenticatedClaim>) -> (r: Vec<AuthenticatedClaim>)
    ensures
        claims_view(r@) == active_claim_seq(claims_view(claims@)),
{
    let ghost all = claims_view(claims@);
    let mut out: Vec<AuthenticatedClaim> = Vec::new();
    let mut i: usize = 0;
    proof {
        assert(all.take(0) =~= Seq::<AuthClaimV>::empty());
        assert(claims_view(out@) =~= active_from(all.take(0), all));
    }
    while i < claims.len()
        invariant
            all == claims_view(claims@),
            i <= claims@.len(),
            claims_view(out@) == active_from(all.take(i as int), all),
        decreases claims@.len() - i,
    {
        let c = &claims[i];
        proof {
            assert(all[i as int] == claims@[i as int]@);
        }
        let keep: bool = match c {
            AuthenticatedClaim::Positive(p) => {
                let ghost cid = claim_id_of(c@);
                proof {
                    assert(cid == p.common_data.id@);
                }
                let mut hit = false;
                let mut j: usize = 0;
                while j < claims.len()
                    invariant
                        all == claims_view(claims@),
                        j <= claims@.len(),
                        cid == p.common_data.id@,
                        hit ==> revoked_ids(all).contains(cid),
                        !hit ==> forall|m: int|
                            0 <= m < j ==> !((#[trigger] all[m]) matches AuthClaimV::Revocation {
                                revoked_id,
                                ..
                            } && revoked_id == cid),
                    decreases claims@.len() - j,
                {
                    proof {
                        assert(all[j as int] == claims@[j as int]@);
                    }
                    match &claims[j] {
                        AuthenticatedClaim::Revocation(rv) => {
                            if crate::util::str_eq(
                                rv.revoked_id.as_str(),
                                p.common_data.id.as_str(),
                            ) {
                                hit = true;
                                proof {
                                    assert(all[j as int] matches AuthClaimV::Revocation {
                                        revoked_id,
                                        ..
                                    } && revoked_id == cid);
                                    assert(revoked_ids(all).contains(cid));
                                }
                            }
                        },
                        AuthenticatedClaim::Positive(_) => {},
                    }
                    j += 1;
                }
                proof {
                    if !hit && revoked_ids(all).contains(cid) {
                        let m = choose|m: int|
                            0 <= m < all.len() && (#[trigger] all[m]
                                matches AuthClaimV::Revocation { revoked_id, .. } && revoked_id
                                == cid);
                        assert(false);
                    }
                    assert(hit == revoked_ids(all).contains(cid));
                }
                !hit
            },
            AuthenticatedClaim::Revocation(_) => false,
        };
        proof {
            assert(keep == is_active(all[i as int], all));
        }
        let ghost out_before = out@;
        if keep {
            out.push(claim_clone(c));
            proof {
                assert(claims_view(out@) =~= claims_view(out_before) + seq![all[i as int]]);
            }
        }
        proof {
            lemma_active_from_snoc(all.take(i as int), all[i as int], all);
            assert(all.take(i as int) + seq![all[i as int]] =~= all.take(i + 1));
            assert(claims_view(out@) =~= active_from(all.take(i + 1), all));
        }
        i += 1;
    }
    proof {
        assert(all.take(claims@.len() as int) =~= all);
    }
    out
}

/// No active claim is one that a revocation references, and none is itself a
/// revocation: a revoked claim is evaluated as if it were absent.
pub proof fn lemma_active_excludes_revoked(cs: Seq<AuthClaimV>)
    ensures
        forall|k: int|
            0 <= k < active_claim_seq(cs).len() ==> is_active(
                #[trigger] active_claim_seq(cs)[k],
                cs,
            ),
{
    lemma_active_from_elements(cs, cs);
}

proof fn lemma_active_from_elements(cs: Seq<AuthClaimV>, all: Seq<AuthClaimV>)
    ensures
        forall|k: int|
            0 <= k < active_from(cs, all).len() ==> is_active(#[trigger] active_from(cs, all)[k], all),
    decreases cs.len(),
{
    if cs.len() > 0 {
        lemma_active_from_elements(cs.drop_first(), all);
        if is_active(cs[0], all) {
            assert(active_from(cs, all) == seq![cs[0]] + active_from(cs.drop_first(), all));
            assert(active_from(cs, all)[0] == cs[0]);
            assert(forall|k: int|
                0 < k < active_from(cs, all).len() ==> #[trigger] active_from(cs, all)[k]
                    == active_from(cs.drop_first(), all)[k - 1]);
        } else {
            assert(active_from(cs, all) == active_from(cs.drop_first(), all));
        }
    }
}

/// A pair of one positive claim and a revocation that references it
/// evaluates as if the positive claim were absent: nothing stays active.
pub proof fn lemma_revoked_pair_inert(p: AuthClaimV, r: AuthClaimV)
    requires
        p is Positive,
        r matches AuthClaimV::Revocation { revoked_id, .. } && revoked_id == claim_id_of(p),
    ensures
        active_claim_seq(seq![p, r]) == Seq::<AuthClaimV>::empty(),
        active_claim_seq(seq![r]) == Seq::<AuthClaimV>::empty(),
{
    let both = seq![p, r];
    assert(both[1] matches AuthClaimV::Revocation { revoked_id, .. } && revoked_id == claim_id_of(
        p,
    ));
    assert(revoked_ids(both).contains(claim_id_of(p)));
    assert(!is_active(both[0], both));
    assert(!is_active(both[1], both));
    assert(both.drop_first() =~= seq![r]);
    assert(seq![r].drop_first() =~= Seq::<AuthClaimV>::empty());
    assert(active_from(Seq::<AuthClaimV>::empty(), both) == Seq::<AuthClaimV>::empty());
    assert(active_from(seq![r], both) =~= Seq::<AuthClaimV>::empty());
    assert(active_from(both, both) =~= Seq::<AuthClaimV>::empty());
    assert(!is_active(seq![r][0], seq![r]));
    assert(active_from(Seq::<AuthClaimV>::empty(), seq![r]) == Seq::<AuthClaimV>::empty());
    assert(active_from(seq![r], seq![r]) =~= Seq::<AuthClaimV>::empty());
}

/// An evaluation strategy: any function of the active claim set alone. An
/// implementation must evaluate through its own spec over exactly the active
/// claims, so a claim nullified by a revocation cannot sway it.
pub trait TrustPolicy {
    spec fn evaluate_spec(&self, active: Seq<AuthClaimV>) -> TrustLevel;

    fn evaluate(&self, claims: &Vec<AuthenticatedClaim>) -> (r: TrustLevel)
        ensures
            r == self.evaluate_spec(active_claim_seq(claims_view(claims@))),
            r.wf(),
    ;
}

/// A policy that grants one fixed level whatever the claims say.
pub struct FixedTrustPolicy {
    pub level: TrustLevel,
}

impl TrustPolicy for FixedTrustPolicy {
    open spec fn evaluate_spec(&self, active: Seq<AuthClaimV>) -> TrustLevel {
        if self.level.wf() {
            self.level
        } else {
            TrustLevel { thousandths: 0 }
        }
    }

    fn evaluate(&self, claims: &Vec<AuthenticatedClaim>) -> (r: TrustLevel)
        ensures
            r == self.evaluate_spec(active_claim_seq(claims_view(claims@))),
            r.wf(),
    {
        if self.level.thousandths <= TRUST_LEVEL_UNIT {
            self.level
        } else {
            TrustLevel::new(0)
        }
    }
}

/// A policy that counts the active claims and grants a quarter of full
/// trust for each, up to the whole.
pub struct CountingTrustPolicy {}

impl TrustPolicy for CountingTrustPolicy {
    open spec fn evaluate_spec(&self, active: Seq<AuthClaimV>) -> TrustLevel {
        if active.len() >= 4 {
            TrustLevel { thousandths: TRUST_LEVEL_UNIT }
        } else {
            TrustLevel { thousandths: (250 * active.len()) as u32 }
        }
    }

    fn evaluate(&self, claims: &Vec<AuthenticatedClaim>) -> (r: TrustLevel)
        ensures
            r == self.evaluate_spec(active_claim_seq(claims_view(claims@))),
            r.wf(),
    {
        let active = active_claims(claims);
        let count = active.len();
        proof {
            assert(active_claim_seq(claims_view(claims@)).len() == claims_view(active@).len());
        }
        if count >= 4 {
            TrustLevel::new(TRUST_LEVEL_UNIT)
        } else {
            TrustLevel::new(250 * (count as u32))
        }
    }
}

fn claim_clone(c: &AuthenticatedClaim) -> (r: AuthenticatedClaim)
    ensures
        r@ == c@,
{
    match c {
        AuthenticatedClaim::Positive(p) => AuthenticatedClaim::Positive(
            crate::claim::PositiveClaimData {
                common_data: common_clone(&p.common_data),
                kind: crate::claim::ClaimKind { claim_kind: p.kind.claim_kind.clone() },
                value: match &p.value {
                    Some(v) => Some(v.clone()),
                    None => None,
                },
            },
        ),
        AuthenticatedClaim::Revocation(rv) => AuthenticatedClaim::Revocation(
            crate::claim::RevocationClaimData {
                common_data: common_clone(&rv.common_data),
                revoked_id: rv.revoked_id.clone(),
            },
        ),
    }
}

fn common_clone(c: &crate::claim::CommonClaimData) -> (r: crate::claim::CommonClaimData)
    ensures
        crate::claim::common_view(r) == crate::claim::common_view(*c),
{
    crate::claim::CommonClaimData {
        id: c.id.clone(),
        uid: c.uid.clone(),
        artifact_identifier: c.artifact_identifier.clone(),
        artifact_hash: c.artifact_hash.clone(),
        comment: match &c.comment {
            Some(v) => Some(v.clone()),
            None => None,
        },
        timestamp: c.timestamp,
    }
}

} // verus!
