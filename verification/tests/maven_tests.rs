use trust_chain::artifacts::{ArtifactRepository, MavenRepository};
use trust_chain::err::TrustChainErrorKind;
use trust_chain::hashing::{hash_bytes, FsTree};

#[test]
fn resolves_standard_coordinates() {
    let repo = MavenRepository::new(String::from("/repo"));
    let path = repo.id_to_path("com.example:mylib:1.2.3").unwrap();
    assert_eq!(path, "/repo/com/example/mylib/1.2.3/mylib-1.2.3.jar");
    assert!(path.ends_with("com/example/mylib/1.2.3/mylib-1.2.3.jar"));
}

#[test]
fn resolves_single_segment_group() {
    let repo = MavenRepository::new(String::from("/repo"));
    let path = repo.id_to_path("junit:junit:4.12").unwrap();
    assert_eq!(path, "/repo/junit/junit/4.12/junit-4.12.jar");
}

#[test]
fn rejects_missing_segment() {
    let repo = MavenRepository::new(String::from("/repo"));
    let err = repo.id_to_path("com.example:mylib").unwrap_err();
    assert!(matches!(err.kind, TrustChainErrorKind::InvalidArtifactId));
}

#[test]
fn rejects_empty_segment() {
    let repo = MavenRepository::new(String::from("/repo"));
    let err = repo.id_to_path("com.example::1.2.3").unwrap_err();
    assert!(matches!(err.kind, TrustChainErrorKind::InvalidArtifactId));
    let err = repo.id_to_path("").unwrap_err();
    assert!(matches!(err.kind, TrustChainErrorKind::InvalidArtifactId));
}

#[test]
fn rejects_extra_colons() {
    let repo = MavenRepository::new(String::from("/repo"));
    let err = repo.id_to_path("a:b:c:d").unwrap_err();
    assert!(matches!(err.kind, TrustChainErrorKind::InvalidArtifactId));
}

#[test]
fn do_hash_hashes_resolved_artifact() {
    let repo = ArtifactRepository::new_maven(String::from("/repo"));
    let content = FsTree::File(b"jar bytes".to_vec());
    let id = repo.do_hash("com.example:mylib:1.2.3", &content).unwrap();
    assert_eq!(id.hash, hash_bytes(b"jar bytes"));
}

#[test]
fn do_hash_rejects_malformed_identifier() {
    let repo = ArtifactRepository::new_maven(String::from("/repo"));
    let content = FsTree::File(Vec::new());
    let err = repo.do_hash("not-a-coordinate", &content).unwrap_err();
    assert!(matches!(err.kind, TrustChainErrorKind::InvalidArtifactId));
}
