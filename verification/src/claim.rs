use vstd::prelude::*;
use crate::artifacts::ArtifactId;
use crate::codec::{
    claim_json, claim_to_json, parse_claim, opt_view, ClaimV, PersistentClaim,
    PersistentClaimSpecifics, PersistentPositiveClaimData, PersistentRevocationData, SpecificsV,
};
use crate::err::{TrustChainError, TrustChainErrorKind};
use crate::gpg::SignedFilePath;
use crate::util::{hex_of, parse_hex, push_char, str_eq, to_hex_string};

verus! {

/// The kind of a positive claim: what is being asserted about the artifact.
#[derive(Debug)]
pub struct ClaimKind {
    pub claim_kind: String,
}

impl ClaimKind {
    pub fn new(kind: &str) -> (r: ClaimKind)
        ensures
            r.claim_kind@ == kind@,
    {
        ClaimKind { claim_kind: kind.to_owned() }
    }
}

/// The fields every claim carries. The artifact's digest is kept in its hex
/// form, exactly as the document stores it.
#[derive(Debug)]
pub struct CommonClaimData {
    pub id: String,
    pub uid: String,
    pub artifact_identifier: String,
    pub artifact_hash: String,
    pub comment: Option<String>,
    pub timestamp: u64,
}

#[derive(Debug)]
pub struct PositiveClaimData {
    pub common_data: CommonClaimData,
    pub kind: ClaimKind,
    pub value: Option<String>,
}

#[derive(Debug)]
pub struct RevocationClaimData {
    pub common_data: CommonClaimData,
    pub revoked_id: String,
}

/// A claim whose signature was checked before it was handed out.
#[derive(Debug)]
pub enum AuthenticatedClaim {
    Positive(PositiveClaimData),
    Revocation(RevocationClaimData),
}

/// The mathematical picture of an authenticated claim.
pub struct CommonV {
    pub id: Seq<char>,
    pub uid: Seq<char>,
    pub artifact_identifier: Seq<char>,
    pub artifact_hash: Seq<char>,
    pub comment: Option<Seq<char>>,
    pub timestamp: u64,
}

pub enum AuthClaimV {
    Positive { common: CommonV, kind: Seq<char>, value: Option<Seq<char>> },
    Revocation { common: CommonV, revoked_id: Seq<char> },
}

impl View for AuthenticatedClaim {
    type V = AuthClaimV;

    open spec fn view(&self) -> AuthClaimV {
        match self {
            AuthenticatedClaim::Positive(p) => AuthClaimV::Positive {
                common: common_view(p.common_data),
                kind: p.kind.claim_kind@,
                value: opt_view(p.value),
            },
            AuthenticatedClaim::Revocation(r) => AuthClaimV::Revocation {
                common: common_view(r.common_data),
                revoked_id: r.revoked_id@,
            },
        }
    }
}

pub open spec fn common_view(c: CommonClaimData) -> CommonV {
    CommonV {
        id: c.id@,
        uid: c.uid@,
        artifact_identifier: c.artifact_identifier@,
        artifact_hash: c.artifact_hash@,
        comment: opt_view(c.comment),
        timestamp: c.timestamp,
    }
}

/// The document an authenticated claim was read from.
pub open spec fn doc_of(a: AuthClaimV) -> ClaimV {
    match a {
        AuthClaimV::Positive { common, kind, value } => ClaimV {
            id: common.id,
            uid: common.uid,
            artifact_id: common.artifact_identifier,
            artifact_hash: common.artifact_hash,
            comment: common.comment,
            timestamp: common.timestamp,
            specifics: SpecificsV::Positive { claim_kind: kind, claim_value: value },
        },
        AuthClaimV::Revocation { common, revoked_id } => ClaimV {
            id: common.id,
            uid: common.uid,
            artifact_id: common.artifact_identifier,
            artifact_hash: common.artifact_hash,
            comment: common.comment,
            timestamp: common.timestamp,
            specifics: SpecificsV::Revocation { revoked_id },
        },
    }
}

/// Whether a document's hash member is the hex form of a whole digest.
pub open spec fn valid_hash_hex(h: Seq<char>) -> bool {
    exists|bs: Seq<u8>| bs.len() == 32 && h == hex_of(bs)
}

impl PersistentClaim {
    /// Turns a parsed document into an authenticated claim; every field is
    /// carried over unchanged.
    pub fn into_authenticated_claim(self) -> (r: AuthenticatedClaim)
        ensures
            doc_of(r@) == self@,
    {
        let common = CommonClaimData {
            id: self.id,
            uid: self.uid,
            artifact_identifier: self.artifact_id,
            artifact_hash: self.artifact_hash,
            comment: self.comment,
            timestamp: self.timestamp,
        };
        match self.specifics {
            PersistentClaimSpecifics::Positive(p) => AuthenticatedClaim::Positive(
                PositiveClaimData {
                    common_data: common,
                    kind: ClaimKind { claim_kind: p.claim_kind },
                    value: p.claim_value,
                },
            ),
            PersistentClaimSpecifics::Revocation(rv) => AuthenticatedClaim::Revocation(
                RevocationClaimData { common_data: common, revoked_id: rv.revoked_id },
            ),
        }
    }
}

impl AuthenticatedClaim {
    /// The claim's common fields.
    pub fn common_data(&self) -> (r: &CommonClaimData)
        ensures
            common_view(*r) == common_of(self@),
    {
        match self {
            AuthenticatedClaim::Positive(p) => &p.common_data,
            AuthenticatedClaim::Revocation(rv) => &rv.common_data,
        }
    }

    /// Decodes the artifact digest the claim speaks of; a claim whose hash
    /// member is not the hex form of a whole digest has none.
    pub fn artifact_digest(&self) -> (r: Option<ArtifactId>)
        ensures
            r matches Some(a) ==> a.wf() && hex_of(a.hash@) == common_of(self@).artifact_hash,
            r is Some <==> valid_hash_hex(common_of(self@).artifact_hash),
    {
        let common = self.common_data();
        let bytes = match parse_hex(common.artifact_hash.as_str()) {
            Some(b) => b,
            None => {
                proof {
                    if valid_hash_hex(common_of(self@).artifact_hash) {
                        let bs = choose|bs: Seq<u8>|
                            bs.len() == 32 && common.artifact_hash@ == hex_of(bs);
                        assert(false);
                    }
                }
                return None;
            },
        };
        if bytes.len() != 32 {
            proof {
                if valid_hash_hex(common_of(self@).artifact_hash) {
                    let bs = choose|bs: Seq<u8>|
                        bs.len() == 32 && common.artifact_hash@ == hex_of(bs);
                    crate::util::lemma_hex_of_props(bs);
                    crate::util::lemma_hex_of_props(bytes@);
                }
            }
            return None;
        }
        Some(ArtifactId::from_digest(bytes))
    }
}

/// The common fields of either claim variant.
pub open spec fn common_of(a: AuthClaimV) -> CommonV {
    match a {
        AuthClaimV::Positive { common, .. } => common,
        AuthClaimV::Revocation { common, .. } => common,
    }
}

} // verus!

verus! {

/// One file found in an artifact's claim folder: its contents, and whether
/// its detached signature checked out against them.
pub struct ClaimFileEntry {
    pub contents: String,
    pub signature_valid: bool,
}

/// Whether an entry is taken up: its signature holds, its contents are a
/// canonical claim document, and the document's hash member is a whole
/// digest.
pub open spec fn entry_ok(e: ClaimFileEntry) -> bool {
    e.signature_valid && exists|cv: ClaimV| e.contents@ == claim_json(cv)
}

/// The documents of the entries that are taken up, in order.
pub open spec fn kept_docs(entries: Seq<ClaimFileEntry>) -> Seq<Seq<char>>
    decreases entries.len(),
{
    if entries.len() == 0 {
        Seq::empty()
    } else {
        let rest = kept_docs(entries.drop_first());
        if entry_ok(entries[0]) {
            seq![entries[0].contents@] + rest
        } else {
            rest
        }
    }
}

/// A registry of signed claims below one root directory, one folder per
/// artifact digest.
pub struct FileSystemClaimRegistry {
    pub root: String,
}

/// Everything a staged signing needs: the fresh claim id, the canonical
/// document, the staging pair to write and sign, and where the pair belongs
/// in the registry.
pub struct SignClaimPlan {
    pub claim_id: String,
    pub staging_name: String,
    pub document: String,
    pub staging: SignedFilePath,
    pub destination: SignedFilePath,
}

/// Relies on uuid::Uuid::new_v4 and its hyphenated form: a fresh random
/// identifier, 36 characters long.
#[verifier::external_body]
fn fresh_random_id() -> (r: String)
    ensures
        r@.len() == 36,
{
    uuid::Uuid::new_v4().hyphenated().to_string()
}

/// The view of an optional borrowed text.
pub open spec fn opt_str_view(o: Option<&str>) -> Option<Seq<char>> {
    match o {
        Some(s) => Some(s@),
        None => None,
    }
}

/// The document a signing writes for given inputs and a given fresh id.
pub open spec fn sign_claim_doc(
    id: Seq<char>,
    artifact_id: Seq<char>,
    artifact_hash: Seq<u8>,
    uid: Seq<char>,
    claim_key: Seq<char>,
    claim_value: Option<Seq<char>>,
    timestamp: u64,
) -> ClaimV {
    ClaimV {
        id,
        uid,
        artifact_id,
        artifact_hash: hex_of(artifact_hash),
        comment: None,
        timestamp,
        specifics: SpecificsV::Positive { claim_kind: claim_key, claim_value },
    }
}

/// The document a revocation writes.
pub open spec fn revoke_claim_doc(
    id: Seq<char>,
    artifact_id: Seq<char>,
    artifact_hash: Seq<u8>,
    uid: Seq<char>,
    revoked_id: Seq<char>,
    timestamp: u64,
) -> ClaimV {
    ClaimV {
        id,
        uid,
        artifact_id,
        artifact_hash: hex_of(artifact_hash),
        comment: None,
        timestamp,
        specifics: SpecificsV::Revocation { revoked_id },
    }
}

/// Whether some stored claim has this id and signer.
pub open spec fn has_claim_by(cs: Seq<ClaimV>, id: Seq<char>, uid: Seq<char>) -> bool {
    exists|i: int| 0 <= i < cs.len() && cs[i].id == id && cs[i].uid == uid
}

/// Whether some stored claim revokes this id.
pub open spec fn has_revocation_of(cs: Seq<ClaimV>, id: Seq<char>) -> bool {
    exists|i: int|
        0 <= i < cs.len() && (#[trigger] cs[i].specifics matches SpecificsV::Revocation {
            revoked_id,
        } && revoked_id == id)
}

impl FileSystemClaimRegistry {
    /// The caller creates the root directory itself; the registry only
    /// remembers it.
    pub fn new(root: String) -> (r: FileSystemClaimRegistry)
        ensures
            r.root@ == root@,
    {
        FileSystemClaimRegistry { root }
    }

    /// The folder all of one artifact's claims live in: named by the hex
    /// digest, directly below the root.
    pub fn artifact_folder(&self, artifact_hash: &Vec<u8>) -> (r: String)
        ensures
            r@ == self.root@ + seq!['/'] + hex_of(artifact_hash@),
    {
        let mut p = String::new();
        p.append(self.root.as_str());
        push_char(&mut p, '/');
        crate::util::write_hex_bytes(&mut p, artifact_hash.as_slice());
        p
    }

    /// Plans a claim signing: draws a fresh claim id and a distinct staging
    /// name, builds the canonical document, and lays out the staging and
    /// destination paths. The caller writes, signs and relocates the files.
    pub fn prepare_sign_claim(
        &self,
        temp_dir: &str,
        artifact_id: &str,
        artifact_hash: &Vec<u8>,
        uid: &str,
        claim_key: &str,
        claim_value: Option<&str>,
        timestamp: u64,
    ) -> (r: SignClaimPlan)
        ensures
            r.claim_id@.len() == 36,
            r.staging_name@.len() == 36,
            r.document@ == claim_json(
                sign_claim_doc(
                    r.claim_id@,
                    artifact_id@,
                    artifact_hash@,
                    uid@,
                    claim_key@,
                    opt_str_view(claim_value),
                    timestamp,
                ),
            ),
            r.staging.data_path@ == temp_dir@ + seq!['/'] + r.staging_name@,
            r.staging.sig_path@ == temp_dir@ + seq!['/'] + r.staging_name@ + seq![
                '.',
                's',
                'i',
                'g',
            ],
            r.destination.data_path@ == self.root@ + seq!['/'] + hex_of(artifact_hash@) + seq![
                '/',
            ] + r.claim_id@,
            r.destination.sig_path@ == self.root@ + seq!['/'] + hex_of(artifact_hash@) + seq![
                '/',
            ] + r.claim_id@ + seq!['.', 's', 'i', 'g'],
    {
        let claim_id = fresh_random_id();
        let staging_name = fresh_random_id();
        let value: Option<String> = match claim_value {
            Some(v) => Some(v.to_owned()),
            None => None,
        };
        let doc = PersistentClaim {
            id: claim_id.clone(),
            uid: uid.to_owned(),
            artifact_id: artifact_id.to_owned(),
            artifact_hash: to_hex_string(artifact_hash.as_slice()),
            comment: None,
            timestamp,
            specifics: PersistentClaimSpecifics::Positive(
                PersistentPositiveClaimData { claim_kind: claim_key.to_owned(), claim_value: value },
            ),
        };
        let document = claim_to_json(&doc);
        let folder = self.artifact_folder(artifact_hash);
        let destination = SignedFilePath::new(folder.as_str(), claim_id.as_str());
        let staging = SignedFilePath::new(temp_dir, staging_name.as_str());
        proof {
            assert(doc@ == sign_claim_doc(
                claim_id@,
                artifact_id@,
                artifact_hash@,
                uid@,
                claim_key@,
                opt_str_view(claim_value),
                timestamp,
            ));
            assert(folder@ + seq!['/'] + claim_id@ =~= self.root@ + seq!['/'] + hex_of(
                artifact_hash@,
            ) + seq!['/'] + claim_id@);
            assert(folder@ + seq!['/'] + claim_id@ + seq!['.', 's', 'i', 'g'] =~= self.root@
                + seq!['/'] + hex_of(artifact_hash@) + seq!['/'] + claim_id@ + seq![
                '.',
                's',
                'i',
                'g',
            ]);
        }
        SignClaimPlan { claim_id, staging_name, document, staging, destination }
    }

    /// Confirms that the claim to revoke exists in the folder's parsed
    /// documents, was authored by the same signer, and has not been revoked
    /// already.
    pub fn check_revocation_allowed(
        claims: &Vec<PersistentClaim>,
        target_claim_id: &str,
        signer_uid: &str,
    ) -> (r: Result<(), TrustChainError>)
        ensures
            r is Ok <==> has_claim_by(
                claims@.map_values(|c: PersistentClaim| c@),
                target_claim_id@,
                signer_uid@,
            ) && !has_revocation_of(
                claims@.map_values(|c: PersistentClaim| c@),
                target_claim_id@,
            ),
            r matches Err(e) ==> (e.kind == TrustChainErrorKind::ClaimNotFound <==> !has_claim_by(
                claims@.map_values(|c: PersistentClaim| c@),
                target_claim_id@,
                signer_uid@,
            )),
            r matches Err(e) ==> e.kind == TrustChainErrorKind::ClaimNotFound || e.kind
                == TrustChainErrorKind::Claims,
    {
        let ghost cvs = claims@.map_values(|c: PersistentClaim| c@);
        let mut found = false;
        let mut i: usize = 0;
        while i < claims.len()
            invariant
                cvs == claims@.map_values(|c: PersistentClaim| c@),
                i <= claims@.len(),
                found <==> has_claim_by(cvs.take(i as int), target_claim_id@, signer_uid@),
            decreases claims@.len() - i,
        {
            let c = &claims[i];
            if str_eq(c.id.as_str(), target_claim_id) && str_eq(c.uid.as_str(), signer_uid) {
                found = true;
            }
            proof {
                assert(cvs.take(i + 1).drop_last() =~= cvs.take(i as int));
                assert(cvs[i as int] == claims@[i as int]@);
                if found {
                    if cvs[i as int].id == target_claim_id@ && cvs[i as int].uid == signer_uid@ {
                        assert(cvs.take(i + 1)[i as int] == cvs[i as int]);
                        assert(has_claim_by(cvs.take(i + 1), target_claim_id@, signer_uid@));
                    } else {
                        let j = choose|j: int|
                            0 <= j < cvs.take(i as int).len() && cvs.take(i as int)[j].id
                                == target_claim_id@ && cvs.take(i as int)[j].uid == signer_uid@;
                        assert(cvs.take(i + 1)[j].id == target_claim_id@);
                        assert(has_claim_by(cvs.take(i + 1), target_claim_id@, signer_uid@));
                    }
                } else {
                    assert(forall|j: int|
                        0 <= j < i + 1 ==> cvs.take(i + 1)[j] == #[trigger] cvs.take(i as int)[j]
                            || j == i);
                }
            }
            i += 1;
        }
        proof {
            assert(cvs.take(claims@.len() as int) =~= cvs);
        }
        if !found {
            let mut d = String::new();
            d.append("no claim with id ");
            d.append(target_claim_id);
            d.append(" by signer ");
            d.append(signer_uid);
            return Err(TrustChainError::new(TrustChainErrorKind::ClaimNotFound, d));
        }
        let mut revoked = false;
        let mut i2: usize = 0;
        while i2 < claims.len()
            invariant
                cvs == claims@.map_values(|c: PersistentClaim| c@),
                i2 <= claims@.len(),
                revoked <==> has_revocation_of(cvs.take(i2 as int), target_claim_id@),
            decreases claims@.len() - i2,
        {
            let c = &claims[i2];
            match &c.specifics {
                PersistentClaimSpecifics::Revocation(rv) => {
                    if str_eq(rv.revoked_id.as_str(), target_claim_id) {
                        revoked = true;
                    }
                },
                PersistentClaimSpecifics::Positive(_) => {},
            }
            proof {
                assert(cvs[i2 as int] == claims@[i2 as int]@);
                if revoked {
                    if cvs[i2 as int].specifics matches SpecificsV::Revocation { revoked_id }
                        && revoked_id == target_claim_id@ {
                        assert(cvs.take(i2 + 1)[i2 as int] == cvs[i2 as int]);
                        assert(has_revocation_of(cvs.take(i2 + 1), target_claim_id@));
                    } else {
                        let j = choose|j: int|
                            0 <= j < cvs.take(i2 as int).len() && (#[trigger] cvs.take(
                                i2 as int,
                            )[j].specifics matches SpecificsV::Revocation { revoked_id }
                                && revoked_id == target_claim_id@);
                        assert(cvs.take(i2 + 1)[j] == cvs.take(i2 as int)[j]);
                        assert(has_revocation_of(cvs.take(i2 + 1), target_claim_id@));
                    }
                } else {
                    assert(forall|j: int|
                        0 <= j < i2 + 1 ==> cvs.take(i2 + 1)[j] == #[trigger] cvs.take(
                            i2 as int,
                        )[j] || j == i2);
                }
            }
            i2 += 1;
        }
        proof {
            assert(cvs.take(claims@.len() as int) =~= cvs);
        }
        if revoked {
            let mut d = String::new();
            d.append("claim ");
            d.append(target_claim_id);
            d.append(" is already revoked");
            return Err(TrustChainError::new(TrustChainErrorKind::Claims, d));
        }
        Ok(())
    }

    /// Plans a revocation: checks it is allowed against the folder's parsed
    /// documents, then lays out the same staged pipeline as a signing, with
    /// a document that references the revoked claim's id.
    pub fn prepare_revoke_claim(
        &self,
        temp_dir: &str,
        artifact_id: &str,
        artifact_hash: &Vec<u8>,
        uid: &str,
        target_claim_id: &str,
        timestamp: u64,
        claims: &Vec<PersistentClaim>,
    ) -> (r: Result<SignClaimPlan, TrustChainError>)
        ensures
            r is Ok <==> has_claim_by(
                claims@.map_values(|c: PersistentClaim| c@),
                target_claim_id@,
                uid@,
            ) && !has_revocation_of(
                claims@.map_values(|c: PersistentClaim| c@),
                target_claim_id@,
            ),
            r matches Ok(plan) ==> {
                &&& plan.claim_id@.len() == 36
                &&& plan.staging_name@.len() == 36
                &&& plan.document@ == claim_json(
                    revoke_claim_doc(
                        plan.claim_id@,
                        artifact_id@,
                        artifact_hash@,
                        uid@,
                        target_claim_id@,
                        timestamp,
                    ),
                )
                &&& plan.staging.data_path@ == temp_dir@ + seq!['/'] + plan.staging_name@
                &&& plan.destination.data_path@ == self.root@ + seq!['/'] + hex_of(
                    artifact_hash@,
                ) + seq!['/'] + plan.claim_id@
            },
            r matches Err(e) ==> (e.kind == TrustChainErrorKind::ClaimNotFound <==> !has_claim_by(
                claims@.map_values(|c: PersistentClaim| c@),
                target_claim_id@,
                uid@,
            )),
            r matches Err(e) ==> e.kind == TrustChainErrorKind::ClaimNotFound || e.kind
                == TrustChainErrorKind::Claims,
    {
        match Self::check_revocation_allowed(claims, target_claim_id, uid) {
            Ok(()) => {},
            Err(e) => {
                return Err(e);
            },
        }
        let claim_id = fresh_random_id();
        let staging_name = fresh_random_id();
        let doc = PersistentClaim {
            id: claim_id.clone(),
            uid: uid.to_owned(),
            artifact_id: artifact_id.to_owned(),
            artifact_hash: to_hex_string(artifact_hash.as_slice()),
            comment: None,
            timestamp,
            specifics: PersistentClaimSpecifics::Revocation(
                PersistentRevocationData { revoked_id: target_claim_id.to_owned() },
            ),
        };
        let document = claim_to_json(&doc);
        let folder = self.artifact_folder(artifact_hash);
        let destination = SignedFilePath::new(folder.as_str(), claim_id.as_str());
        let staging = SignedFilePath::new(temp_dir, staging_name.as_str());
        proof {
            assert(doc@ == revoke_claim_doc(
                claim_id@,
                artifact_id@,
                artifact_hash@,
                uid@,
                target_claim_id@,
                timestamp,
            ));
            assert(folder@ + seq!['/'] + claim_id@ =~= self.root@ + seq!['/'] + hex_of(
                artifact_hash@,
            ) + seq!['/'] + claim_id@);
        }
        Ok(SignClaimPlan { claim_id, staging_name, document, staging, destination })
    }

    /// The file pair a named claim would occupy in the artifact's folder,
    /// or ClaimNotFound when that folder does not exist as a directory.
    pub fn verify_claim_paths(
        &self,
        artifact_hash: &Vec<u8>,
        claim_file_name: &str,
        folder_is_dir: bool,
    ) -> (r: Result<SignedFilePath, TrustChainError>)
        ensures
            r matches Ok(p) ==> folder_is_dir && p.data_path@ == self.root@ + seq!['/'] + hex_of(
                artifact_hash@,
            ) + seq!['/'] + claim_file_name@ && p.sig_path@ == self.root@ + seq!['/'] + hex_of(
                artifact_hash@,
            ) + seq!['/'] + claim_file_name@ + seq!['.', 's', 'i', 'g'],
            r matches Err(e) ==> !folder_is_dir && e.kind == TrustChainErrorKind::ClaimNotFound,
    {
        if !folder_is_dir {
            let mut d = String::new();
            d.append("claim file ");
            d.append(claim_file_name);
            d.append(" not found for artifact with hash ");
            let hex = to_hex_string(artifact_hash.as_slice());
            d.append(hex.as_str());
            return Err(TrustChainError::new(TrustChainErrorKind::ClaimNotFound, d));
        }
        let folder = self.artifact_folder(artifact_hash);
        let p = SignedFilePath::new(folder.as_str(), claim_file_name);
        proof {
            assert(folder@ + seq!['/'] + claim_file_name@ =~= self.root@ + seq!['/'] + hex_of(
                artifact_hash@,
            ) + seq!['/'] + claim_file_name@);
            assert(folder@ + seq!['/'] + claim_file_name@ + seq!['.', 's', 'i', 'g'] =~= self.root@
                + seq!['/'] + hex_of(artifact_hash@) + seq!['/'] + claim_file_name@ + seq![
                '.',
                's',
                'i',
                'g',
            ]);
        }
        Ok(p)
    }

    /// Takes up, from a snapshot of an artifact's claim folder, exactly the
    /// entries whose signature held and whose contents are a canonical
    /// document: each becomes an authenticated claim carrying that document,
    /// in folder order. A corrupt file is skipped, never an error.
    #[verifier::rlimit(100)]
    pub fn authenticated_claims_for(&self, entries: Vec<ClaimFileEntry>) -> (r: Vec<
        AuthenticatedClaim,
    >)
        ensures
            r@.map_values(|a: AuthenticatedClaim| claim_json(doc_of(a@))) == kept_docs(entries@),
    {
        let mut out: Vec<AuthenticatedClaim> = Vec::new();
        let mut entries = entries;
        let ghost all = entries@;
        let mut i: usize = entries.len();
        proof {
            assert(all.skip(all.len() as int) =~= Seq::<ClaimFileEntry>::empty());
        }
        while i > 0
            invariant
                i <= all.len(),
                entries@ == all.take(i as int),
                out@.map_values(|a: AuthenticatedClaim| claim_json(doc_of(a@))) == kept_docs(
                    all.skip(i as int),
                ),
            decreases i,
        {
            let e = match entries.pop() {
                Some(e) => e,
                None => {
                    proof {
                        assert(false);
                    }
                    continue
                },
            };
            proof {
                assert(all.take(i as int).drop_last() =~= all.take(i - 1));
                assert(all.take(i as int).last() == all[i - 1]);
                assert(all.skip(i - 1)[0] == all[i - 1]);
                assert(all.skip(i - 1).drop_first() =~= all.skip(i as int));
            }
            let ghost out_before = out@;
            if e.signature_valid {
                match parse_claim(e.contents.as_str()) {
                    Some(pc) => {
                        let ghost pcv = pc@;
                        let a = pc.into_authenticated_claim();
                        out.insert(0, a);
                        proof {
                            assert(entry_ok(all[i - 1]));
                            assert(out@ =~= seq![a] + out_before);
                            assert(out@.map_values(
                                |x: AuthenticatedClaim| claim_json(doc_of(x@)),
                            ) =~= seq![claim_json(doc_of(a@))] + out_before.map_values(
                                |x: AuthenticatedClaim| claim_json(doc_of(x@)),
                            ));
                            assert(e == all[i - 1]);
                            assert(e.contents@ == claim_json(pcv));
                            assert(doc_of(a@) == pcv);
                            assert(claim_json(doc_of(a@)) == all[i - 1].contents@);
                            assert(out@.map_values(
                                |x: AuthenticatedClaim| claim_json(doc_of(x@)),
                            ) =~= kept_docs(all.skip(i - 1)));
                        }
                    },
                    None => {
                        proof {
                            if entry_ok(all[i - 1]) {
                                assert(exists|cv: ClaimV| all[i - 1].contents@ == claim_json(cv));
                                assert(false);
                            }
                            assert(kept_docs(all.skip(i - 1)) =~= kept_docs(all.skip(i as int)));
                        }
                    },
                }
            } else {
                proof {
                    assert(!entry_ok(all[i - 1]));
                    assert(kept_docs(all.skip(i - 1)) =~= kept_docs(all.skip(i as int)));
                }
            }
            i -= 1;
        }
        proof {
            assert(all.skip(0) =~= all);
            assert(entries@.len() == 0);
        }
        out
    }
}

} // verus!
