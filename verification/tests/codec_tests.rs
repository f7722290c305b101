use trust_chain::codec::{
    claim_to_json, parse_claim, PersistentClaim, PersistentClaimSpecifics,
    PersistentPositiveClaimData, PersistentRevocationData,
};

fn sample_positive() -> PersistentClaim {
    PersistentClaim {
        id: String::from("4851de30-8c4c-41f9-9c14-9f2efaf10cd8"),
        uid: String::from("dev@example.org"),
        artifact_id: String::from("com.example:mylib:1.2.3"),
        artifact_hash: String::from(
            "ba7816bf8f01cfea414140de5dae2223b00361a396177a9cb410ff61f20015ad",
        ),
        comment: Some(String::from("reviewed by hand")),
        timestamp: 1575225882,
        specifics: PersistentClaimSpecifics::Positive(PersistentPositiveClaimData {
            claim_kind: String::from("reviewed"),
            claim_value: Some(String::from("thorough")),
        }),
    }
}

#[test]
fn serializes_canonical_positive_document() {
    let json = claim_to_json(&sample_positive());
    assert_eq!(
        json,
        "{\"id\":\"4851de30-8c4c-41f9-9c14-9f2efaf10cd8\",\"uid\":\"dev@example.org\",\
         \"artifact_id\":\"com.example:mylib:1.2.3\",\"artifact_hash\":\
         \"ba7816bf8f01cfea414140de5dae2223b00361a396177a9cb410ff61f20015ad\",\
         \"comment\":\"reviewed by hand\",\"timestamp\":1575225882,\
         \"specifics\":{\"Positive\":{\"claim_kind\":\"reviewed\",\"claim_value\":\"thorough\"}}}"
    );
}

#[test]
fn round_trips_positive_claim() {
    let claim = sample_positive();
    let json = claim_to_json(&claim);
    let back = parse_claim(&json).expect("canonical document must parse");
    assert_eq!(back.id, claim.id);
    assert_eq!(back.uid, claim.uid);
    assert_eq!(back.artifact_id, claim.artifact_id);
    assert_eq!(back.artifact_hash, claim.artifact_hash);
    assert_eq!(back.comment, claim.comment);
    assert_eq!(back.timestamp, claim.timestamp);
    match back.specifics {
        PersistentClaimSpecifics::Positive(p) => {
            assert_eq!(p.claim_kind, "reviewed");
            assert_eq!(p.claim_value.as_deref(), Some("thorough"));
        }
        _ => panic!("wrong variant"),
    }
}

#[test]
fn round_trips_revocation_and_nulls() {
    let claim = PersistentClaim {
        id: String::from("id-2"),
        uid: String::from("dev"),
        artifact_id: String::from("g:a:v"),
        artifact_hash: String::from("00"),
        comment: None,
        timestamp: 0,
        specifics: PersistentClaimSpecifics::Revocation(PersistentRevocationData {
            revoked_id: String::from("id-1"),
        }),
    };
    let json = claim_to_json(&claim);
    assert!(json.contains("\"comment\":null"));
    assert!(json.contains("{\"Revocation\":{\"revoked_id\":\"id-1\"}}"));
    let back = parse_claim(&json).expect("canonical document must parse");
    assert_eq!(back.comment, None);
    match back.specifics {
        PersistentClaimSpecifics::Revocation(r) => assert_eq!(r.revoked_id, "id-1"),
        _ => panic!("wrong variant"),
    }
}

#[test]
fn round_trips_escaped_text() {
    let mut claim = sample_positive();
    claim.comment = Some(String::from("line one\nwith \"quotes\" and \\slashes\\ \t end"));
    let json = claim_to_json(&claim);
    let back = parse_claim(&json).expect("escaped document must parse");
    assert_eq!(back.comment, claim.comment);
}

#[test]
fn rejects_corrupt_documents() {
    assert!(parse_claim("").is_none());
    assert!(parse_claim("{}").is_none());
    assert!(parse_claim("not json at all").is_none());
    let json = claim_to_json(&sample_positive());
    let mut broken = json.clone();
    broken.pop();
    assert!(parse_claim(&broken).is_none());
    let trailing = format!("{} ", json);
    assert!(parse_claim(&trailing).is_none());
}

#[test]
fn rejects_noncanonical_spacing() {
    let json = claim_to_json(&sample_positive());
    let spaced = json.replace("\"uid\":", "\"uid\": ");
    assert!(parse_claim(&spaced).is_none());
}
