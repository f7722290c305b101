use vstd::prelude::*;
use crate::err::{TrustChainError, TrustChainErrorKind};
use crate::util::{push_char, split_on, split_str, str_eq};

verus! {

/// A signer fingerprint extracted from a successful verification. It carries
/// no a-priori trust.
#[derive(Clone, Debug)]
pub struct PublicKey {
    pub fingerprint: String,
}

impl PublicKey {
    pub fn new(fingerprint: String) -> (r: PublicKey)
        ensures
            r.fingerprint@ == fingerprint@,
    {
        PublicKey { fingerprint }
    }
}

/// A pair of paths, one pointing to a data file and the other pointing to the
/// corresponding signature file.
#[derive(Clone, Debug)]
pub struct SignedFilePath {
    pub data_path: String,
    pub sig_path: String,
}

impl SignedFilePath {
    pub fn new(base_path: &str, data_file_name: &str) -> (r: SignedFilePath)
        ensures
            r.data_path@ == base_path@ + seq!['/'] + data_file_name@,
            r.sig_path@ == base_path@ + seq!['/'] + data_file_name@ + seq!['.', 's', 'i', 'g'],
    {
        let mut data_path = String::new();
        data_path.append(base_path);
        push_char(&mut data_path, '/');
        data_path.append(data_file_name);
        let mut sig_path = data_path.clone();
        push_char(&mut sig_path, '.');
        push_char(&mut sig_path, 's');
        push_char(&mut sig_path, 'i');
        push_char(&mut sig_path, 'g');
        SignedFilePath { data_path, sig_path }
    }
}

/// The whitespace characters that separate tokens of a status line.
pub open spec fn is_ws(c: char) -> bool {
    c == ' ' || c == '\t' || c == '\r' || c == '\n' || c == '\u{0c}'
}

fn is_ws_char(c: char) -> (r: bool)
    ensures
        r == is_ws(c),
{
    c == ' ' || c == '\t' || c == '\r' || c == '\n' || c == '\u{0c}'
}

/// The length of the leading whitespace-free run of `s`.
pub open spec fn next_ws(s: Seq<char>) -> int
    decreases s.len(),
{
    if s.len() == 0 {
        0
    } else if is_ws(s[0]) {
        0
    } else {
        1 + next_ws(s.drop_first())
    }
}

pub proof fn lemma_next_ws_bounds(s: Seq<char>)
    ensures
        0 <= next_ws(s) <= s.len(),
    decreases s.len(),
{
    if s.len() > 0 && !is_ws(s[0]) {
        lemma_next_ws_bounds(s.drop_first());
    }
}

#[via_fn]
proof fn ws_tokens_decreases(s: Seq<char>) {
    if s.len() > 0 && !is_ws(s[0]) {
        lemma_next_ws_bounds(s.drop_first());
    }
}

/// The whitespace-separated tokens of a line, in order, each non-empty.
pub open spec fn ws_tokens(s: Seq<char>) -> Seq<Seq<char>>
    decreases s.len(),
    via ws_tokens_decreases
{
    if s.len() == 0 {
        Seq::empty()
    } else if is_ws(s[0]) {
        ws_tokens(s.drop_first())
    } else {
        let k = next_ws(s);
        seq![s.take(k)] + ws_tokens(s.skip(k))
    }
}

proof fn lemma_next_ws_at(s: Seq<char>, j: int)
    requires
        0 <= j <= s.len(),
        forall|k: int| 0 <= k < j ==> !is_ws(s[k]),
        j == s.len() || is_ws(s[j]),
    ensures
        next_ws(s) == j,
    decreases j,
{
    if j > 0 {
        lemma_next_ws_at(s.drop_first(), j - 1);
        assert(forall|k: int| 0 <= k < j - 1 ==> s.drop_first()[k] == s[k + 1]);
    }
}

/// Splits a line into its whitespace-separated tokens.
pub fn tokenize_ws(line: &str) -> (r: Vec<String>)
    ensures
        r@.map_values(|t: String| t@) == ws_tokens(line@),
{
    let n = line.unicode_len();
    let mut toks: Vec<String> = Vec::new();
    let mut i: usize = 0;
    proof {
        assert(line@.skip(0) =~= line@);
        assert(toks@.map_values(|t: String| t@) + ws_tokens(line@) =~= ws_tokens(line@));
    }
    while i < n
        invariant
            n == line@.len(),
            i <= n,
            toks@.map_values(|t: String| t@) + ws_tokens(line@.skip(i as int)) == ws_tokens(
                line@,
            ),
        decreases n - i,
    {
        if is_ws_char(line.get_char(i)) {
            proof {
                assert(line@.skip(i as int)[0] == line@[i as int]);
                assert(line@.skip(i as int).drop_first() =~= line@.skip(i + 1));
            }
            i += 1;
        } else {
            let mut j: usize = i + 1;
            while j < n && !is_ws_char(line.get_char(j))
                invariant
                    n == line@.len(),
                    i < j <= n,
                    forall|k: int| i < k < j ==> !is_ws(line@[k]),
                decreases n - j,
            {
                j += 1;
            }
            let seg = line.substring_char(i, j);
            let ghost toks_before = toks@;
            toks.push(seg.to_owned());
            proof {
                let tail = line@.skip(i as int);
                assert(forall|k: int| 0 <= k < tail.len() ==> tail[k] == line@[k + i]);
                lemma_next_ws_at(tail, j - i);
                assert(tail.take(j - i) =~= line@.subrange(i as int, j as int));
                assert(tail.skip(j - i) =~= line@.skip(j as int));
                assert(toks@.map_values(|t: String| t@) =~= toks_before.map_values(
                    |t: String| t@,
                ).push(seg@));
                assert(toks@.map_values(|t: String| t@) + ws_tokens(line@.skip(j as int))
                    =~= toks_before.map_values(|t: String| t@) + ws_tokens(tail));
            }
            i = j;
        }
    }
    proof {
        assert(line@.skip(n as int).len() == 0);
        assert(toks@.map_values(|t: String| t@) =~= ws_tokens(line@));
    }
    toks
}

/// Whether a line's tokens form a machine-readable status record: at least
/// three tokens, the first being the status marker.
pub open spec fn gpg_status_line(toks: Seq<Seq<char>>) -> bool {
    toks.len() > 2 && toks[0] == "[GNUPG:]"@
}

/// The fingerprint a VALIDSIG record carries: the primary-key field when
/// present, else the signing-key field.
pub open spec fn validsig_fingerprint(toks: Seq<Seq<char>>) -> Seq<char> {
    if toks.len() >= 12 {
        toks[11]
    } else {
        toks[2]
    }
}

/// One linear pass over tokenized status lines: a terminal record decides at
/// once; a VALIDSIG record captures its fingerprint; everything else is
/// informational.
pub open spec fn scan_verify(lines: Seq<Seq<Seq<char>>>, cur: Option<Seq<char>>) -> Result<
    Option<Seq<char>>,
    TrustChainErrorKind,
>
    decreases lines.len(),
{
    if lines.len() == 0 {
        Ok(cur)
    } else {
        let toks = lines[0];
        let rest = lines.drop_first();
        if gpg_status_line(toks) {
            if toks[1] == "BADSIG"@ {
                Err(TrustChainErrorKind::InvalidSignature)
            } else if toks[1] == "EXPSIG"@ {
                Err(TrustChainErrorKind::ExpiredSignature)
            } else if toks[1] == "REVKEYSIG"@ {
                Err(TrustChainErrorKind::ExpiredKeySignature)
            } else if toks[1] == "ERRSIG"@ {
                Err(TrustChainErrorKind::Generic)
            } else if toks[1] == "VALIDSIG"@ {
                scan_verify(rest, Some(validsig_fingerprint(toks)))
            } else {
                scan_verify(rest, cur)
            }
        } else {
            scan_verify(rest, cur)
        }
    }
}

/// What interpreting a whole verification status stream yields: a captured
/// fingerprint, no fingerprint, or a terminal failure.
pub open spec fn verify_outcome(stdout: Seq<char>) -> Result<
    Option<Seq<char>>,
    TrustChainErrorKind,
> {
    scan_verify(split_on(stdout, '\n').map_values(|l: Seq<char>| ws_tokens(l)), None)
}

spec fn key_view(cur: Option<PublicKey>) -> Option<Seq<char>> {
    match cur {
        Some(k) => Some(k.fingerprint@),
        None => None,
    }
}

/// The external signing engine's protocol, interpreted by the library. The
/// engine itself runs outside it.
pub struct Gpg {}

impl Gpg {
    /// Interprets the status stream that the engine's verification mode wrote
    /// to its standard output, given also whether the engine exited
    /// successfully. Succeeds exactly when a VALIDSIG fingerprint was
    /// captured and no terminal failure record came first.
    pub fn verify(path: &SignedFilePath, stdout: &str, exit_ok: bool) -> (r: Result<
        PublicKey,
        TrustChainError,
    >)
        ensures
            verify_outcome(stdout@) matches Ok(Some(fp)) ==> r matches Ok(k) && k.fingerprint@
                == fp,
            verify_outcome(stdout@) matches Ok(None) ==> r matches Err(e) && e.kind
                == TrustChainErrorKind::Gpg,
            verify_outcome(stdout@) matches Err(k) ==> r matches Err(e) && e.kind == k,
    {
        let lines = split_str(stdout, '\n');
        let ghost spec_lines = split_on(stdout@, '\n').map_values(|l: Seq<char>| ws_tokens(l));
        let mut cur: Option<PublicKey> = None;
        let mut li: usize = 0;
        proof {
            assert(spec_lines.skip(0) =~= spec_lines);
        }
        while li < lines.len()
            invariant
                lines@.map_values(|t: String| t@) == split_on(stdout@, '\n'),
                spec_lines == split_on(stdout@, '\n').map_values(|l: Seq<char>| ws_tokens(l)),
                li <= lines@.len(),
                lines@.len() == spec_lines.len(),
                scan_verify(spec_lines, None) == scan_verify(
                    spec_lines.skip(li as int),
                    key_view(cur),
                ),
            decreases lines@.len() - li,
        {
            let toks = tokenize_ws(lines[li].as_str());
            proof {
                assert(spec_lines[li as int] == ws_tokens(lines@[li as int]@));
                assert(spec_lines.skip(li as int)[0] == spec_lines[li as int]);
                assert(spec_lines.skip(li as int).drop_first() =~= spec_lines.skip(li + 1));
            }
            if toks.len() > 2 && str_eq(toks[0].as_str(), "[GNUPG:]") {
                proof {
                    assert(toks@.map_values(|t: String| t@)[0] == toks@[0]@);
                    assert(toks@.map_values(|t: String| t@)[1] == toks@[1]@);
                    assert(toks@.map_values(|t: String| t@)[2] == toks@[2]@);
                }
                if str_eq(toks[1].as_str(), "BADSIG") {
                    let mut d = String::new();
                    d.append("the signature ");
                    d.append(path.sig_path.as_str());
                    d.append(" is not a valid signature for ");
                    d.append(path.data_path.as_str());
                    d.append(" - this may indicate an attack");
                    return Err(
                        TrustChainError::new(TrustChainErrorKind::InvalidSignature, d),
                    );
                } else if str_eq(toks[1].as_str(), "EXPSIG") {
                    let mut d = String::new();
                    d.append("the signature ");
                    d.append(path.sig_path.as_str());
                    d.append(" for ");
                    d.append(path.data_path.as_str());
                    d.append(" is expired");
                    return Err(
                        TrustChainError::new(TrustChainErrorKind::ExpiredSignature, d),
                    );
                } else if str_eq(toks[1].as_str(), "REVKEYSIG") {
                    let mut d = String::new();
                    d.append("the signature ");
                    d.append(path.sig_path.as_str());
                    d.append(" is valid for ");
                    d.append(path.data_path.as_str());
                    d.append(", but the key");
                    if toks.len() >= 4 {
                        d.append(" ");
                        d.append(toks[2].as_str());
                        d.append(" for uid ");
                        d.append(toks[3].as_str());
                    }
                    d.append(" was revoked");
                    return Err(
                        TrustChainError::new(TrustChainErrorKind::ExpiredKeySignature, d),
                    );
                } else if str_eq(toks[1].as_str(), "ERRSIG") {
                    let mut d = String::new();
                    d.append("the signature file ");
                    d.append(path.sig_path.as_str());
                    d.append(" does not contain a well-formed signature");
                    return Err(TrustChainError::new(TrustChainErrorKind::Generic, d));
                } else if str_eq(toks[1].as_str(), "VALIDSIG") {
                    if toks.len() >= 12 {
                        cur = Some(PublicKey::new(toks[11].clone()));
                        proof {
                            assert(toks@.map_values(|t: String| t@)[11] == toks@[11]@);
                        }
                    } else {
                        cur = Some(PublicKey::new(toks[2].clone()));
                    }
                }
            }
            li += 1;
        }
        proof {
            assert(spec_lines.skip(lines@.len() as int).len() == 0);
        }
        match cur {
            Some(k) => Ok(k),
            None => {
                let mut d = String::new();
                if !exit_ok {
                    d.append("error verifying signature ");
                    d.append(path.sig_path.as_str());
                    d.append(" for ");
                    d.append(path.data_path.as_str());
                } else {
                    d.append("unrecognized verification output format for signature ");
                    d.append(path.sig_path.as_str());
                    d.append(" for ");
                    d.append(path.data_path.as_str());
                }
                Err(TrustChainError::new(TrustChainErrorKind::Gpg, d))
            },
        }
    }
}

} // verus!
