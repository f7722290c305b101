use vstd::prelude::*;
use crate::err::{TrustChainError, TrustChainErrorKind};
use crate::hashing::{hash_tree, sha256_of, tree_stream, FsTree};
use crate::util::{push_char, split_on, split_str};

verus! {

/// A content identity for an artifact: the SHA-256 digest of its bytes.
#[derive(Clone, Debug)]
pub struct ArtifactId {
    pub hash: Vec<u8>,
}

impl ArtifactId {
    /// A digest is always 32 bytes long.
    pub open spec fn wf(self) -> bool {
        self.hash@.len() == 32
    }

    pub fn from_digest(hash: Vec<u8>) -> (r: ArtifactId)
        requires
            hash@.len() == 32,
        ensures
            r.hash@ == hash@,
            r.wf(),
    {
        ArtifactId { hash }
    }
}

/// Whether an identifier is a well-formed Maven coordinate: three non-empty,
/// colon-separated segments.
pub open spec fn valid_maven_id(id: Seq<char>) -> bool {
    let parts = split_on(id, ':');
    parts.len() == 3 && parts[0].len() > 0 && parts[1].len() > 0 && parts[2].len() > 0
}

/// Extends a path by one directory per non-empty segment.
pub open spec fn append_segs(p: Seq<char>, segs: Seq<Seq<char>>) -> Seq<char>
    decreases segs.len(),
{
    if segs.len() == 0 {
        p
    } else if segs[0].len() == 0 {
        append_segs(p, segs.drop_first())
    } else {
        append_segs(p + seq!['/'] + segs[0], segs.drop_first())
    }
}

/// The local path of a Maven artifact below `root`: the group's dot-separated
/// segments as nested directories, then artifact and version directories,
/// then the jar file named `<artifact>-<version>.jar`.
pub open spec fn maven_path(root: Seq<char>, id: Seq<char>) -> Seq<char>
    recommends
        valid_maven_id(id),
{
    let parts = split_on(id, ':');
    let base = append_segs(root, split_on(parts[0], '.'));
    base + seq!['/'] + parts[1] + seq!['/'] + parts[2] + seq!['/'] + parts[1] + seq!['-']
        + parts[2] + seq!['.', 'j', 'a', 'r']
}

/// A repository laid out in the standard local Maven fashion below a root
/// directory.
pub struct MavenRepository {
    pub root: String,
}

impl MavenRepository {
    pub fn new(root: String) -> (r: MavenRepository)
        ensures
            r.root@ == root@,
    {
        MavenRepository { root }
    }

    /// Turns a `group:artifact:version` coordinate into the artifact's local
    /// path, or rejects a malformed coordinate.
    pub fn id_to_path(&self, artifact_id: &str) -> (r: Result<String, TrustChainError>)
        ensures
            r matches Ok(p) ==> valid_maven_id(artifact_id@) && p@ == maven_path(
                self.root@,
                artifact_id@,
            ),
            r matches Err(e) ==> !valid_maven_id(artifact_id@) && e.kind
                == TrustChainErrorKind::InvalidArtifactId,
    {
        let parts = split_str(artifact_id, ':');
        proof {
            assert(parts@.map_values(|t: String| t@).len() == parts@.len());
        }
        if parts.len() != 3 {
            return Err(invalid_id_error(artifact_id));
        }
        proof {
            assert(split_on(artifact_id@, ':')[0] == parts@[0]@);
            assert(split_on(artifact_id@, ':')[1] == parts@[1]@);
            assert(split_on(artifact_id@, ':')[2] == parts@[2]@);
        }
        if parts[0].as_str().unicode_len() == 0 || parts[1].as_str().unicode_len() == 0
            || parts[2].as_str().unicode_len() == 0 {
            return Err(invalid_id_error(artifact_id));
        }
        let segs = split_str(parts[0].as_str(), '.');
        let mut p = String::new();
        p.append(self.root.as_str());
        let ghost group_segs = split_on(parts@[0]@, '.');
        let ghost base = append_segs(self.root@, group_segs);
        let mut k: usize = 0;
        proof {
            assert(segs@.map_values(|t: String| t@).skip(0) =~= segs@.map_values(|t: String| t@));
        }
        while k < segs.len()
            invariant
                k <= segs@.len(),
                group_segs == segs@.map_values(|t: String| t@),
                append_segs(p@, segs@.map_values(|t: String| t@).skip(k as int)) == base,
            decreases segs@.len() - k,
        {
            let ghost views = segs@.map_values(|t: String| t@);
            proof {
                assert(views.skip(k as int)[0] == views[k as int]);
                assert(views.skip(k as int).drop_first() =~= views.skip(k + 1));
            }
            if segs[k].as_str().unicode_len() > 0 {
                push_char(&mut p, '/');
                p.append(segs[k].as_str());
            }
            k += 1;
        }
        proof {
            assert(segs@.map_values(|t: String| t@).skip(segs@.len() as int)
                =~= Seq::<Seq<char>>::empty());
            assert(p@ == base);
        }
        push_char(&mut p, '/');
        p.append(parts[1].as_str());
        push_char(&mut p, '/');
        p.append(parts[2].as_str());
        push_char(&mut p, '/');
        p.append(parts[1].as_str());
        push_char(&mut p, '-');
        p.append(parts[2].as_str());
        push_char(&mut p, '.');
        push_char(&mut p, 'j');
        push_char(&mut p, 'a');
        push_char(&mut p, 'r');
        proof {
            assert(p@ =~= maven_path(self.root@, artifact_id@));
        }
        Ok(p)
    }
}

fn invalid_id_error(artifact_id: &str) -> (e: TrustChainError)
    ensures
        e.kind == TrustChainErrorKind::InvalidArtifactId,
{
    let mut d = String::new();
    d.append("'");
    d.append(artifact_id);
    d.append("' is not a valid Maven artifact identifier");
    TrustChainError::new(TrustChainErrorKind::InvalidArtifactId, d)
}

/// The repository backends the library knows; only Maven is implemented.
pub enum ArtifactRepository {
    Maven(MavenRepository),
}

impl ArtifactRepository {
    pub fn new_maven(root: String) -> (r: ArtifactRepository)
        ensures
            r matches ArtifactRepository::Maven(m) && m.root@ == root@,
    {
        ArtifactRepository::Maven(MavenRepository::new(root))
    }

    /// The path the backend resolves an identifier to, or rejection of a
    /// malformed identifier.
    pub fn resolve(&self, artifact_id: &str) -> (r: Result<String, TrustChainError>)
        ensures
            self matches ArtifactRepository::Maven(m) ==> {
                &&& r matches Ok(p) ==> valid_maven_id(artifact_id@) && p@ == maven_path(
                    m.root@,
                    artifact_id@,
                )
                &&& r matches Err(e) ==> !valid_maven_id(artifact_id@) && e.kind
                    == TrustChainErrorKind::InvalidArtifactId
            },
    {
        match self {
            ArtifactRepository::Maven(repo) => repo.id_to_path(artifact_id),
        }
    }

    /// Checks the identifier against the backend's grammar, then hashes the
    /// artifact's content, handed over as an in-memory tree.
    pub fn do_hash(&self, artifact_id: &str, content: &FsTree) -> (r: Result<
        ArtifactId,
        TrustChainError,
    >)
        ensures
            r matches Ok(a) ==> {
                &&& self matches ArtifactRepository::Maven(m) ==> valid_maven_id(artifact_id@)
                &&& a.hash@ == sha256_of(tree_stream(*content))
                &&& a.wf()
            },
            r matches Err(e) ==> {
                &&& self matches ArtifactRepository::Maven(m) ==> !valid_maven_id(artifact_id@)
                &&& e.kind == TrustChainErrorKind::InvalidArtifactId
            },
    {
        match self {
            ArtifactRepository::Maven(repo) => {
                match repo.id_to_path(artifact_id) {
                    Ok(_path) => {
                        let h = hash_tree(content);
                        Ok(ArtifactId { hash: h })
                    },
                    Err(e) => Err(e),
                }
            },
        }
    }
}

} // verus!
