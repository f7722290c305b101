use vstd::prelude::*;
use crate::util::{hex_digit, hex_val, push_char};

verus! {

/// How one character is written inside a canonical document string: quote and
/// backslash get a backslash escape, control characters a \u00XX escape, and
/// every other character stands as itself.
pub open spec fn esc_char(c: char) -> Seq<char> {
    if c == '"' {
        seq!['\\', '"']
    } else if c == '\\' {
        seq!['\\', '\\']
    } else if (c as u32) < 32 {
        seq!['\\', 'u', '0', '0', hex_digit((c as u32 / 16) as u8), hex_digit(
            (c as u32 % 16) as u8,
        )]
    } else {
        seq![c]
    }
}

/// A whole text, escaped character by character.
pub open spec fn esc_seq(s: Seq<char>) -> Seq<char>
    decreases s.len(),
{
    if s.len() == 0 {
        Seq::empty()
    } else {
        esc_char(s[0]) + esc_seq(s.drop_first())
    }
}

/// A quoted, escaped document string.
pub open spec fn json_string(s: Seq<char>) -> Seq<char> {
    seq!['"'] + esc_seq(s) + seq!['"']
}

pub proof fn lemma_esc_seq_append(a: Seq<char>, b: Seq<char>)
    ensures
        esc_seq(a + b) == esc_seq(a) + esc_seq(b),
    decreases a.len(),
{
    if a.len() == 0 {
        assert(a + b =~= b);
        assert(esc_seq(a) + esc_seq(b) =~= esc_seq(b));
    } else {
        assert((a + b).drop_first() =~= a.drop_first() + b);
        lemma_esc_seq_append(a.drop_first(), b);
        assert(esc_seq(a + b) =~= esc_seq(a) + esc_seq(b));
    }
}

proof fn lemma_esc_seq_snoc(s: Seq<char>, c: char)
    ensures
        esc_seq(s + seq![c]) == esc_seq(s) + esc_char(c),
{
    lemma_esc_seq_append(s, seq![c]);
    assert(seq![c].drop_first() =~= Seq::<char>::empty());
    assert(esc_seq(Seq::<char>::empty()) == Seq::<char>::empty());
    assert(esc_seq(seq![c]) == esc_char(seq![c][0]) + esc_seq(seq![c].drop_first()));
    assert(esc_seq(seq![c]) =~= esc_char(c));
}

/// Appends the escaped form of `s`.
fn append_escaped(out: &mut String, s: &str)
    ensures
        final(out)@ == old(out)@ + esc_seq(s@),
{
    let n = s.unicode_len();
    let mut i: usize = 0;
    proof {
        assert(s@.take(0) =~= Seq::<char>::empty());
        assert(out@ + esc_seq(s@.take(0)) =~= out@);
    }
    while i < n
        invariant
            n == s@.len(),
            i <= n,
            out@ == old(out)@ + esc_seq(s@.take(i as int)),
        decreases n - i,
    {
        let c = s.get_char(i);
        if c == '"' {
            push_char(out, '\\');
            push_char(out, '"');
        } else if c == '\\' {
            push_char(out, '\\');
            push_char(out, '\\');
        } else if (c as u32) < 32 {
            let v = c as u32;
            push_char(out, '\\');
            push_char(out, 'u');
            push_char(out, '0');
            push_char(out, '0');
            push_char(out, crate::util::hex_digit_char((v / 16) as u8));
            push_char(out, crate::util::hex_digit_char((v % 16) as u8));
        } else {
            push_char(out, c);
        }
        proof {
            lemma_esc_seq_snoc(s@.take(i as int), s@[i as int]);
            assert(s@.take(i as int) + seq![s@[i as int]] =~= s@.take(i + 1));
            assert(out@ =~= old(out)@ + esc_seq(s@.take(i + 1)));
        }
        i += 1;
    }
    proof {
        assert(s@.take(n as int) =~= s@);
    }
}

/// Appends the quoted, escaped form of `s`.
fn append_json_string(out: &mut String, s: &str)
    ensures
        final(out)@ == old(out)@ + json_string(s@),
{
    push_char(out, '"');
    append_escaped(out, s);
    push_char(out, '"');
    proof {
        assert(final(out)@ =~= old(out)@ + json_string(s@));
    }
}

/// The digit character for a value below ten.
pub open spec fn dec_digit(n: nat) -> char
    recommends
        n < 10,
{
    hex_digit(n as u8)
}

/// The decimal digits of a number, most significant first, no leading zero
/// except for the number zero itself.
pub open spec fn dec_digits(n: nat) -> Seq<char>
    decreases n,
{
    if n < 10 {
        seq![dec_digit(n)]
    } else {
        dec_digits(n / 10) + seq![dec_digit(n % 10)]
    }
}

/// Appends the decimal form of `n`.
fn append_u64(out: &mut String, n: u64)
    ensures
        final(out)@ == old(out)@ + dec_digits(n as nat),
    decreases n,
{
    if n < 10 {
        push_char(out, crate::util::hex_digit_char(n as u8));
    } else {
        append_u64(out, n / 10);
        push_char(out, crate::util::hex_digit_char((n % 10) as u8));
        proof {
            assert(final(out)@ =~= old(out)@ + dec_digits(n as nat));
        }
    }
}

} // verus!

verus! {

/// A claim document as it is persisted: the fields of the canonical JSON
/// object, in its key order.
#[derive(Debug)]
pub struct PersistentClaim {
    pub id: String,
    pub uid: String,
    pub artifact_id: String,
    pub artifact_hash: String,
    pub comment: Option<String>,
    pub timestamp: u64,
    pub specifics: PersistentClaimSpecifics,
}

/// What a claim asserts: a positive statement, or the revocation of an
/// earlier claim.
#[derive(Debug)]
pub enum PersistentClaimSpecifics {
    Positive(PersistentPositiveClaimData),
    Revocation(PersistentRevocationData),
}

#[derive(Debug)]
pub struct PersistentPositiveClaimData {
    pub claim_kind: String,
    pub claim_value: Option<String>,
}

#[derive(Debug)]
pub struct PersistentRevocationData {
    pub revoked_id: String,
}

/// The mathematical picture of a claim document.
pub struct ClaimV {
    pub id: Seq<char>,
    pub uid: Seq<char>,
    pub artifact_id: Seq<char>,
    pub artifact_hash: Seq<char>,
    pub comment: Option<Seq<char>>,
    pub timestamp: u64,
    pub specifics: SpecificsV,
}

pub enum SpecificsV {
    Positive { claim_kind: Seq<char>, claim_value: Option<Seq<char>> },
    Revocation { revoked_id: Seq<char> },
}

pub open spec fn opt_view(o: Option<String>) -> Option<Seq<char>> {
    match o {
        Some(s) => Some(s@),
        None => None,
    }
}

impl View for PersistentClaimSpecifics {
    type V = SpecificsV;

    open spec fn view(&self) -> SpecificsV {
        match self {
            PersistentClaimSpecifics::Positive(p) => SpecificsV::Positive {
                claim_kind: p.claim_kind@,
                claim_value: opt_view(p.claim_value),
            },
            PersistentClaimSpecifics::Revocation(r) => SpecificsV::Revocation {
                revoked_id: r.revoked_id@,
            },
        }
    }
}

impl View for PersistentClaim {
    type V = ClaimV;

    open spec fn view(&self) -> ClaimV {
        ClaimV {
            id: self.id@,
            uid: self.uid@,
            artifact_id: self.artifact_id@,
            artifact_hash: self.artifact_hash@,
            comment: opt_view(self.comment),
            timestamp: self.timestamp,
            specifics: self.specifics@,
        }
    }
}

/// An optional document string: null, or the quoted string.
pub open spec fn opt_json(o: Option<Seq<char>>) -> Seq<char> {
    match o {
        None => "null"@,
        Some(s) => json_string(s),
    }
}

/// The canonical form of the specifics member.
pub open spec fn specifics_json(s: SpecificsV) -> Seq<char> {
    match s {
        SpecificsV::Positive { claim_kind, claim_value } => "{\"Positive\":{\"claim_kind\":"@
            + json_string(claim_kind) + ",\"claim_value\":"@ + opt_json(claim_value) + "}}"@,
        SpecificsV::Revocation { revoked_id } => "{\"Revocation\":{\"revoked_id\":"@
            + json_string(revoked_id) + "}}"@,
    }
}

/// The canonical serialization of a claim document: one JSON object, fixed
/// key order, no whitespace.
pub open spec fn claim_json(c: ClaimV) -> Seq<char> {
    "{\"id\":"@ + json_string(c.id) + ",\"uid\":"@ + json_string(c.uid) + ",\"artifact_id\":"@
        + json_string(c.artifact_id) + ",\"artifact_hash\":"@ + json_string(c.artifact_hash)
        + ",\"comment\":"@ + opt_json(c.comment) + ",\"timestamp\":"@ + dec_digits(
        c.timestamp as nat,
    ) + ",\"specifics\":"@ + specifics_json(c.specifics) + "}"@
}

fn append_opt_string(out: &mut String, o: &Option<String>)
    ensures
        final(out)@ == old(out)@ + opt_json(opt_view(*o)),
{
    match o {
        None => {
            out.append("null");
        },
        Some(s) => {
            append_json_string(out, s.as_str());
        },
    }
}

/// Writes a claim in its canonical serialization.
pub fn claim_to_json(c: &PersistentClaim) -> (r: String)
    ensures
        r@ == claim_json(c@),
{
    let mut out = String::new();
    out.append("{\"id\":");
    append_json_string(&mut out, c.id.as_str());
    out.append(",\"uid\":");
    append_json_string(&mut out, c.uid.as_str());
    out.append(",\"artifact_id\":");
    append_json_string(&mut out, c.artifact_id.as_str());
    out.append(",\"artifact_hash\":");
    append_json_string(&mut out, c.artifact_hash.as_str());
    out.append(",\"comment\":");
    append_opt_string(&mut out, &c.comment);
    out.append(",\"timestamp\":");
    append_u64(&mut out, c.timestamp);
    out.append(",\"specifics\":");
    match &c.specifics {
        PersistentClaimSpecifics::Positive(p) => {
            out.append("{\"Positive\":{\"claim_kind\":");
            append_json_string(&mut out, p.claim_kind.as_str());
            out.append(",\"claim_value\":");
            append_opt_string(&mut out, &p.claim_value);
            out.append("}}");
        },
        PersistentClaimSpecifics::Revocation(rv) => {
            out.append("{\"Revocation\":{\"revoked_id\":");
            append_json_string(&mut out, rv.revoked_id.as_str());
            out.append("}}");
        },
    }
    out.append("}");
    proof {
        assert(out@ =~= claim_json(c@));
    }
    out
}

} // verus!

verus! {

/// Whether `t` occupies `s` from `pos` on.
pub open spec fn at_pos(s: Seq<char>, pos: int, t: Seq<char>) -> bool {
    0 <= pos && pos + t.len() <= s.len() && s.subrange(pos, pos + t.len()) == t
}

/// Matches a fixed literal at `pos`: succeeds exactly when it stands there.
fn match_lit(s: &str, pos: usize, lit: &str) -> (r: Option<usize>)
    requires
        pos <= s@.len(),
    ensures
        r matches Some(p) ==> p == pos + lit@.len() && p <= s@.len() && at_pos(
            s@,
            pos as int,
            lit@,
        ),
        at_pos(s@, pos as int, lit@) ==> r is Some,
{
    let n = s.unicode_len();
    let ln = lit.unicode_len();
    if n - pos < ln {
        return None;
    }
    let mut k: usize = 0;
    while k < ln
        invariant
            n == s@.len(),
            ln == lit@.len(),
            pos + ln <= n,
            k <= ln,
            forall|m: int| 0 <= m < k ==> s@[pos + m] == lit@[m],
        decreases ln - k,
    {
        if s.get_char(pos + k) != lit.get_char(k) {
            proof {
                if at_pos(s@, pos as int, lit@) {
                    assert(s@.subrange(pos as int, pos + lit@.len())[k as int] == lit@[k as int]);
                }
            }
            return None;
        }
        k += 1;
    }
    proof {
        assert(s@.subrange(pos as int, pos + lit@.len()) =~= lit@);
    }
    Some(pos + ln)
}

proof fn lemma_esc_split(v: Seq<char>, k: int)
    requires
        0 <= k < v.len(),
    ensures
        esc_seq(v) == esc_seq(v.take(k)) + esc_char(v[k]) + esc_seq(v.skip(k + 1)),
{
    lemma_esc_seq_append(v.take(k), v.skip(k));
    assert(v.take(k) + v.skip(k) =~= v);
    assert(v.skip(k)[0] == v[k]);
    assert(v.skip(k).drop_first() =~= v.skip(k + 1));
    assert(esc_seq(v) =~= esc_seq(v.take(k)) + esc_char(v[k]) + esc_seq(v.skip(k + 1)));
}

/// Reads a quoted, escaped document string at `pos`.
fn parse_json_string(s: &str, pos: usize, Ghost(hint): Ghost<Option<Seq<char>>>) -> (r: Option<
    (String, usize),
>)
    requires
        pos <= s@.len(),
        hint matches Some(v) ==> at_pos(s@, pos as int, json_string(v)),
    ensures
        r matches Some((w, p)) ==> pos < p <= s@.len(),
        hint matches Some(v) ==> r matches Some((w, p)) && w@ == v && p == pos + json_string(
            v,
        ).len(),
{
    let n = s.unicode_len();
    proof {
        if let Some(v) = hint {
            assert forall|m: int| 0 <= m < json_string(v).len() implies s@[pos + m]
                == #[trigger] json_string(v)[m] by {
                assert(s@.subrange(pos as int, pos + json_string(v).len())[m] == json_string(
                    v,
                )[m]);
            }
        }
    }
    if pos >= n {
        proof {
            if let Some(v) = hint {
                assert(false);
            }
        }
        return None;
    }
    if s.get_char(pos) != '"' {
        proof {
            if let Some(v) = hint {
                assert(s@[pos as int] == json_string(v)[0]);
                assert(false);
            }
        }
        return None;
    }
    let mut acc = String::new();
    let mut i: usize = pos + 1;
    let ghost mut k: int = 0;
    proof {
        if let Some(v) = hint {
            assert(v.take(0) =~= Seq::<char>::empty());
            assert(acc@ =~= v.take(0));
        }
    }
    while i < n
        invariant
            n == s@.len(),
            pos < i <= n,
            pos <= s@.len(),
            hint matches Some(v) ==> at_pos(s@, pos as int, json_string(v)),
            hint matches Some(v) ==> 0 <= k <= v.len() && acc@ == v.take(k) && i == pos + 1
                + esc_seq(v.take(k)).len() && i < n,
        decreases n - i,
    {
        proof {
            if let Some(v) = hint {
                assert forall|m: int| 0 <= m < json_string(v).len() implies s@[pos + m]
                    == #[trigger] json_string(v)[m] by {
                    assert(s@.subrange(pos as int, pos + json_string(v).len())[m] == json_string(
                        v,
                    )[m]);
                }
                if k < v.len() {
                    lemma_esc_split(v, k);
                }
            }
        }
        let c = s.get_char(i);
        if c == '"' {
            proof {
                if let Some(v) = hint {
                    if k < v.len() {
                        assert(s@[i as int] == json_string(v)[1 + esc_seq(v.take(k)).len() as int]);
                        assert(json_string(v)[1 + esc_seq(v.take(k)).len() as int] == esc_char(v[k])[0]);
                        assert(false);
                    }
                    assert(acc@ == v);
                    assert(v.take(k) =~= v);
                    assert(i + 1 == pos + json_string(v).len());
                }
            }
            return Some((acc, i + 1));
        }
        proof {
            if let Some(v) = hint {
                if k >= v.len() {
                    assert(v.take(k) =~= v);
                    assert(s@[i as int] == json_string(v)[1 + esc_seq(v).len() as int]);
                    assert(false);
                }
                assert(s@[i as int] == json_string(v)[1 + esc_seq(v.take(k)).len() as int]);
                assert(json_string(v)[1 + esc_seq(v.take(k)).len() as int] == esc_char(v[k])[0]);
                assert(s@[i as int] == esc_char(v[k])[0]);
                if esc_char(v[k]).len() >= 2 {
                    assert(s@[i + 1] == json_string(v)[2 + esc_seq(v.take(k)).len() as int]);
                    assert(json_string(v)[2 + esc_seq(v.take(k)).len() as int] == esc_char(
                        v[k],
                    )[1]);
                    assert(s@[i + 1] == esc_char(v[k])[1]);
                }
            }
        }
        if c == '\\' {
            if n - i < 2 {
                proof {
                    if let Some(v) = hint {
                        assert(false);
                    }
                }
                return None;
            }
            let d = s.get_char(i + 1);
            if d == '"' {
                push_char(&mut acc, '"');
                proof {
                    if let Some(v) = hint {
                        assert(v[k] == '"');
                        lemma_esc_seq_snoc(v.take(k), v[k]);
                        assert(v.take(k) + seq![v[k]] =~= v.take(k + 1));
                        k = k + 1;
                    }
                }
                i += 2;
            } else if d == '\\' {
                push_char(&mut acc, '\\');
                proof {
                    if let Some(v) = hint {
                        assert(v[k] == '\\');
                        lemma_esc_seq_snoc(v.take(k), v[k]);
                        assert(v.take(k) + seq![v[k]] =~= v.take(k + 1));
                        k = k + 1;
                    }
                }
                i += 2;
            } else if d == 'u' {
                proof {
                    if let Some(v) = hint {
                        assert(v[k] == '"' || v[k] == '\\' || (v[k] as u32) < 32);
                        assert((v[k] as u32) < 32);
                        assert forall|t: int| 0 <= t < 6 implies s@[i + t] == esc_char(v[k])[t]
                            by {
                            assert(s@[i + t] == json_string(v)[1 + esc_seq(v.take(k)).len() as int + t]);
                            assert(json_string(v)[1 + esc_seq(v.take(k)).len() as int + t]
                                == esc_char(v[k])[t]);
                        }
                    }
                }
                if n - i < 6 {
                    proof {
                        if let Some(v) = hint {
                            assert(false);
                        }
                    }
                    return None;
                }
                if s.get_char(i + 2) != '0' || s.get_char(i + 3) != '0' {
                    proof {
                        if let Some(v) = hint {
                            assert(false);
                        }
                    }
                    return None;
                }
                let h1 = hex_val(s.get_char(i + 4));
                let h2 = hex_val(s.get_char(i + 5));
                match (h1, h2) {
                    (Some(a), Some(b)) => {
                        let val: u32 = (a as u32) * 16 + (b as u32);
                        if val >= 32 {
                            proof {
                                if let Some(v) = hint {
                                    assert(a == (v[k] as u32 / 16) as u8);
                                    assert(b == (v[k] as u32 % 16) as u8);
                                    assert(false);
                                }
                            }
                            return None;
                        }
                        push_char(&mut acc, (val as u8) as char);
                        proof {
                            if let Some(v) = hint {
                                assert(a == (v[k] as u32 / 16) as u8);
                                assert(b == (v[k] as u32 % 16) as u8);
                                assert(val == v[k] as u32);
                                vstd::utf8::char_u32_cast(v[k], val);
                                assert((val as char) == v[k]);
                                assert((val as u8) as char == val as char);
                                assert((val as u8) as char == v[k]);
                                lemma_esc_seq_snoc(v.take(k), v[k]);
                                assert(v.take(k) + seq![v[k]] =~= v.take(k + 1));
                                k = k + 1;
                            }
                        }
                        i += 6;
                    },
                    _ => {
                        proof {
                            if let Some(v) = hint {
                                assert(s@[i + 4] == hex_digit((v[k] as u32 / 16) as u8));
                                assert(s@[i + 5] == hex_digit((v[k] as u32 % 16) as u8));
                                assert(false);
                            }
                        }
                        return None;
                    },
                }
            } else {
                proof {
                    if let Some(v) = hint {
                        assert(v[k] == '"' || v[k] == '\\' || (v[k] as u32) < 32);
                        assert(false);
                    }
                }
                return None;
            }
        } else if (c as u32) < 32 {
            proof {
                if let Some(v) = hint {
                    assert(false);
                }
            }
            return None;
        } else {
            push_char(&mut acc, c);
            proof {
                if let Some(v) = hint {
                    assert(v[k] == c);
                    lemma_esc_seq_snoc(v.take(k), v[k]);
                    assert(v.take(k) + seq![v[k]] =~= v.take(k + 1));
                    k = k + 1;
                }
            }
            i += 1;
        }
    }
    proof {
        if let Some(v) = hint {
            assert(false);
        }
    }
    None
}

} // verus!

verus! {

/// Whether a character is a decimal digit.
pub open spec fn is_dec_digit(c: char) -> bool {
    48 <= c as u32 <= 57
}

/// The number a digit sequence denotes.
pub open spec fn digits_val(ds: Seq<char>) -> nat
    decreases ds.len(),
{
    if ds.len() == 0 {
        0
    } else {
        digits_val(ds.drop_last()) * 10 + ((ds.last() as u32 - 48) as nat)
    }
}

pub proof fn lemma_dec_digits_props(n: nat)
    ensures
        dec_digits(n).len() >= 1,
        forall|k: int| 0 <= k < dec_digits(n).len() ==> is_dec_digit(#[trigger] dec_digits(n)[k]),
        digits_val(dec_digits(n)) == n,
    decreases n,
{
    if n < 10 {
        assert(seq![dec_digit(n)].drop_last() =~= Seq::<char>::empty());
        assert(digits_val(Seq::<char>::empty()) == 0);
        assert(digits_val(dec_digits(n)) == n);
    } else {
        lemma_dec_digits_props(n / 10);
        let dd = dec_digits(n);
        assert(dd.drop_last() =~= dec_digits(n / 10));
        assert(dd.last() == dec_digit(n % 10));
        assert(digits_val(dd) == digits_val(dec_digits(n / 10)) * 10 + (n % 10));
        assert(forall|k: int|
            0 <= k < dec_digits(n / 10).len() ==> dd[k] == #[trigger] dec_digits(n / 10)[k]);
    }
}

proof fn lemma_digits_val_take(ds: Seq<char>, k: int)
    requires
        0 <= k <= ds.len(),
    ensures
        digits_val(ds.take(k)) <= digits_val(ds),
    decreases ds.len(),
{
    if k == ds.len() {
        assert(ds.take(k) =~= ds);
    } else {
        assert(ds.take(k) =~= ds.drop_last().take(k));
        lemma_digits_val_take(ds.drop_last(), k);
        assert(digits_val(ds) == digits_val(ds.drop_last()) * 10 + ((ds.last() as u32 - 48)
            as nat));
    }
}

fn dec_val(c: char) -> (r: Option<u8>)
    ensures
        r matches Some(d) ==> d < 10 && is_dec_digit(c) && d as u32 == c as u32 - 48,
        r is None ==> !is_dec_digit(c),
{
    let v = c as u32;
    if 48 <= v && v <= 57 {
        Some((v - 48) as u8)
    } else {
        None
    }
}

/// Reads an unsigned decimal number at `pos`: the longest digit run.
fn parse_u64(s: &str, pos: usize, Ghost(hint): Ghost<Option<u64>>) -> (r: Option<(u64, usize)>)
    requires
        pos <= s@.len(),
        hint matches Some(nv) ==> at_pos(s@, pos as int, dec_digits(nv as nat)) && (pos
            + dec_digits(nv as nat).len() == s@.len() || !is_dec_digit(
            s@[pos + dec_digits(nv as nat).len()],
        )),
    ensures
        r matches Some((m, p)) ==> pos < p <= s@.len(),
        hint matches Some(nv) ==> r matches Some((m, p)) && m == nv && p == pos + dec_digits(
            nv as nat,
        ).len(),
{
    let n = s.unicode_len();
    let ghost dd: Seq<char> = match hint {
        Some(nv) => dec_digits(nv as nat),
        None => Seq::empty(),
    };
    proof {
        if let Some(nv) = hint {
            lemma_dec_digits_props(nv as nat);
            assert forall|m: int| 0 <= m < dd.len() implies s@[pos + m] == #[trigger] dd[m] by {
                assert(s@.subrange(pos as int, pos + dd.len())[m] == dd[m]);
            }
        }
    }
    let mut i: usize = pos;
    let mut acc: u64 = 0;
    proof {
        if let Some(nv) = hint {
            assert(dd.take(0) =~= Seq::<char>::empty());
        }
    }
    while i < n
        invariant
            n == s@.len(),
            pos <= i <= n,
            hint matches Some(nv) ==> {
                &&& dd == dec_digits(nv as nat)
                &&& at_pos(s@, pos as int, dd)
                &&& i - pos <= dd.len()
                &&& acc as nat == digits_val(dd.take(i - pos))
                &&& digits_val(dd) == nv
                &&& dd.len() >= 1
                &&& (forall|m: int| 0 <= m < dd.len() ==> is_dec_digit(#[trigger] dd[m]))
                &&& (forall|m: int| 0 <= m < dd.len() ==> s@[pos + m] == #[trigger] dd[m])
                &&& (pos + dd.len() == s@.len() || !is_dec_digit(s@[pos + dd.len()]))
            },
        decreases n - i,
    {
        let c = s.get_char(i);
        match dec_val(c) {
            None => {
                proof {
                    if let Some(nv) = hint {
                        if i - pos < dd.len() {
                            assert(s@[pos + (i - pos)] == dd[i - pos]);
                            assert(false);
                        }
                        assert(dd.take(i - pos) =~= dd);
                    }
                }
                if i == pos {
                    return None;
                }
                return Some((acc, i));
            },
            Some(d) => {
                proof {
                    if let Some(nv) = hint {
                        if i - pos >= dd.len() {
                            assert(i - pos == dd.len());
                            assert(pos + dd.len() < s@.len());
                            assert(!is_dec_digit(s@[pos + dd.len()]));
                            assert(false);
                        }
                        assert(s@[pos + (i - pos)] == dd[i - pos]);
                        assert(dd.take(i - pos + 1).drop_last() =~= dd.take(i - pos));
                        assert(dd.take(i - pos + 1).last() == dd[i - pos]);
                        assert(digits_val(dd.take(i - pos + 1)) == (acc as nat) * 10 + d);
                        lemma_digits_val_take(dd, i - pos + 1);
                    }
                }
                if acc > (u64::MAX - (d as u64)) / 10 {
                    proof {
                        if let Some(nv) = hint {
                            assert(digits_val(dd.take(i - pos + 1)) <= nv as nat);
                            assert(false);
                        }
                    }
                    return None;
                }
                acc = acc * 10 + (d as u64);
                i += 1;
            },
        }
    }
    proof {
        if let Some(nv) = hint {
            assert(i - pos == dd.len());
            assert(dd.take(i - pos) =~= dd);
        }
    }
    if i == pos {
        return None;
    }
    Some((acc, i))
}

/// Reads null or a quoted string at `pos`.
fn parse_opt_string(s: &str, pos: usize, Ghost(hint): Ghost<Option<Option<Seq<char>>>>) -> (r:
    Option<(Option<String>, usize)>)
    requires
        pos <= s@.len(),
        hint matches Some(ov) ==> at_pos(s@, pos as int, opt_json(ov)),
    ensures
        r matches Some((w, p)) ==> p <= s@.len(),
        hint matches Some(ov) ==> r matches Some((w, p)) && opt_view(w) == ov && p == pos
            + opt_json(ov).len(),
{
    let n = s.unicode_len();
    if pos < n && s.get_char(pos) == '"' {
        let ghost inner: Option<Seq<char>> = match hint {
            Some(Some(v)) => Some(v),
            _ => None,
        };
        proof {
            if let Some(ov) = hint {
                match ov {
                    Some(v) => {},
                    None => {
                        reveal_strlit("null");
                        assert(s@.subrange(pos as int, pos + opt_json(ov).len())[0] == opt_json(
                            ov,
                        )[0]);
                        assert(false);
                    },
                }
            }
        }
        match parse_json_string(s, pos, Ghost(inner)) {
            Some((w, p)) => Some((Some(w), p)),
            None => {
                proof {
                    if let Some(ov) = hint {
                        assert(false);
                    }
                }
                None
            },
        }
    } else {
        proof {
            if let Some(ov) = hint {
                match ov {
                    Some(v) => {
                        assert(s@.subrange(pos as int, pos + opt_json(ov).len())[0] == opt_json(
                            ov,
                        )[0]);
                        assert(s@[pos as int] == '"');
                        assert(false);
                    },
                    None => {},
                }
            }
        }
        match match_lit(s, pos, "null") {
            Some(p) => Some((None, p)),
            None => {
                proof {
                    if let Some(ov) = hint {
                        assert(false);
                    }
                }
                None
            },
        }
    }
}

} // verus!

verus! {

/// A piece of a region stands at its offset in the whole.
proof fn lemma_at_pos_sub(s: Seq<char>, pos: int, t: Seq<char>, off: int, u: Seq<char>)
    requires
        at_pos(s, pos, t),
        0 <= off,
        off + u.len() <= t.len(),
        t.subrange(off, off + u.len()) == u,
    ensures
        at_pos(s, pos + off, u),
{
    assert forall|m: int| 0 <= m < u.len() implies s.subrange(
        pos + off,
        pos + off + u.len(),
    )[m] == u[m] by {
        assert(s.subrange(pos, pos + t.len())[off + m] == t[off + m]);
        assert(t.subrange(off, off + u.len())[m] == t[off + m]);
    }
    assert(s.subrange(pos + off, pos + off + u.len()) =~= u);
}

/// Reads the specifics member at `pos`.
fn parse_specifics(s: &str, pos: usize, Ghost(hint): Ghost<Option<SpecificsV>>) -> (r: Option<
    (PersistentClaimSpecifics, usize),
>)
    requires
        pos <= s@.len(),
        hint matches Some(sv) ==> at_pos(s@, pos as int, specifics_json(sv)),
    ensures
        r matches Some((w, p)) ==> p <= s@.len(),
        hint matches Some(sv) ==> r matches Some((w, p)) && w@ == sv && p == pos
            + specifics_json(sv).len(),
{
    match match_lit(s, pos, "{\"Positive\":{\"claim_kind\":") {
        Some(p1) => {
            proof {
                if let Some(sv) = hint {
                    if let SpecificsV::Revocation { revoked_id } = sv {
                        reveal_strlit("{\"Positive\":{\"claim_kind\":");
                        reveal_strlit("{\"Revocation\":{\"revoked_id\":");
                        assert(s@.subrange(
                            pos as int,
                            pos + "{\"Positive\":{\"claim_kind\":"@.len(),
                        )[2] == "{\"Positive\":{\"claim_kind\":"@[2]);
                        assert(s@.subrange(pos as int, pos + specifics_json(sv).len())[2]
                            == specifics_json(sv)[2]);
                        assert(false);
                    }
                }
            }
            let ghost kh: Option<Seq<char>> = match hint {
                Some(SpecificsV::Positive { claim_kind, claim_value }) => Some(claim_kind),
                _ => None,
            };
            proof {
                if let Some(sv) = hint {
                    if let SpecificsV::Positive { claim_kind, claim_value } = sv {
                        assert(at_pos(s@, p1 as int, json_string(claim_kind))) by {
                            assert(specifics_json(sv).subrange(
                                p1 - pos,
                                p1 - pos + json_string(claim_kind).len(),
                            ) =~= json_string(claim_kind));
                            lemma_at_pos_sub(
                                s@,
                                pos as int,
                                specifics_json(sv),
                                p1 - pos,
                                json_string(claim_kind),
                            );
                        }
                    }
                }
            }
            let (kind, p2) = match parse_json_string(s, p1, Ghost(kh)) {
                Some(x) => x,
                None => {
                    proof {
                        if let Some(sv) = hint {
                            assert(false);
                        }
                    }
                    return None;
                },
            };
            proof {
                if let Some(sv) = hint {
                    if let SpecificsV::Positive { claim_kind, claim_value } = sv {
                        assert(at_pos(s@, p2 as int, ",\"claim_value\":"@)) by {
                            assert(specifics_json(sv).subrange(
                                p2 - pos,
                                p2 - pos + ",\"claim_value\":"@.len(),
                            ) =~= ",\"claim_value\":"@);
                            lemma_at_pos_sub(
                                s@,
                                pos as int,
                                specifics_json(sv),
                                p2 - pos,
                                ",\"claim_value\":"@,
                            );
                        }
                    }
                }
            }
            let p3 = match match_lit(s, p2, ",\"claim_value\":") {
                Some(p) => p,
                None => {
                    proof {
                        if let Some(sv) = hint {
                            assert(false);
                        }
                    }
                    return None;
                },
            };
            let ghost vh: Option<Option<Seq<char>>> = match hint {
                Some(SpecificsV::Positive { claim_kind, claim_value }) => Some(claim_value),
                _ => None,
            };
            proof {
                if let Some(sv) = hint {
                    if let SpecificsV::Positive { claim_kind, claim_value } = sv {
                        assert(at_pos(s@, p3 as int, opt_json(claim_value))) by {
                            assert(specifics_json(sv).subrange(
                                p3 - pos,
                                p3 - pos + opt_json(claim_value).len(),
                            ) =~= opt_json(claim_value));
                            lemma_at_pos_sub(
                                s@,
                                pos as int,
                                specifics_json(sv),
                                p3 - pos,
                                opt_json(claim_value),
                            );
                        }
                    }
                }
            }
            let (value, p4) = match parse_opt_string(s, p3, Ghost(vh)) {
                Some(x) => x,
                None => {
                    proof {
                        if let Some(sv) = hint {
                            assert(false);
                        }
                    }
                    return None;
                },
            };
            proof {
                if let Some(sv) = hint {
                    if let SpecificsV::Positive { claim_kind, claim_value } = sv {
                        assert(at_pos(s@, p4 as int, "}}"@)) by {
                            assert(specifics_json(sv).subrange(p4 - pos, p4 - pos + "}}"@.len())
                                =~= "}}"@);
                            lemma_at_pos_sub(s@, pos as int, specifics_json(sv), p4 - pos, "}}"@);
                        }
                    }
                }
            }
            let p5 = match match_lit(s, p4, "}}") {
                Some(p) => p,
                None => {
                    proof {
                        if let Some(sv) = hint {
                            assert(false);
                        }
                    }
                    return None;
                },
            };
            Some(
                (
                    PersistentClaimSpecifics::Positive(
                        PersistentPositiveClaimData { claim_kind: kind, claim_value: value },
                    ),
                    p5,
                ),
            )
        },
        None => {
            match match_lit(s, pos, "{\"Revocation\":{\"revoked_id\":") {
                Some(p1) => {
                    proof {
                        if let Some(sv) = hint {
                            if let SpecificsV::Positive { claim_kind, claim_value } = sv {
                                assert(at_pos(
                                    s@,
                                    pos as int,
                                    "{\"Positive\":{\"claim_kind\":"@,
                                )) by {
                                    assert(specifics_json(sv).subrange(
                                        0,
                                        "{\"Positive\":{\"claim_kind\":"@.len() as int,
                                    ) =~= "{\"Positive\":{\"claim_kind\":"@);
                                    lemma_at_pos_sub(
                                        s@,
                                        pos as int,
                                        specifics_json(sv),
                                        0,
                                        "{\"Positive\":{\"claim_kind\":"@,
                                    );
                                }
                                assert(false);
                            }
                        }
                    }
                    let ghost rh: Option<Seq<char>> = match hint {
                        Some(SpecificsV::Revocation { revoked_id }) => Some(revoked_id),
                        _ => None,
                    };
                    proof {
                        if let Some(sv) = hint {
                            if let SpecificsV::Revocation { revoked_id } = sv {
                                assert(at_pos(s@, p1 as int, json_string(revoked_id))) by {
                                    assert(specifics_json(sv).subrange(
                                        p1 - pos,
                                        p1 - pos + json_string(revoked_id).len(),
                                    ) =~= json_string(revoked_id));
                                    lemma_at_pos_sub(
                                        s@,
                                        pos as int,
                                        specifics_json(sv),
                                        p1 - pos,
                                        json_string(revoked_id),
                                    );
                                }
                            }
                    }
                    }
                    let (rid, p2) = match parse_json_string(s, p1, Ghost(rh)) {
                        Some(x) => x,
                        None => {
                            proof {
                                if let Some(sv) = hint {
                                    assert(false);
                                }
                            }
                            return None;
                        },
                    };
                    proof {
                        if let Some(sv) = hint {
                            if let SpecificsV::Revocation { revoked_id } = sv {
                                assert(at_pos(s@, p2 as int, "}}"@)) by {
                                    assert(specifics_json(sv).subrange(
                                        p2 - pos,
                                        p2 - pos + "}}"@.len(),
                                    ) =~= "}}"@);
                                    lemma_at_pos_sub(
                                        s@,
                                        pos as int,
                                        specifics_json(sv),
                                        p2 - pos,
                                        "}}"@,
                                    );
                                }
                            }
                    }
                    }
                    let p3 = match match_lit(s, p2, "}}") {
                        Some(p) => p,
                        None => {
                            proof {
                                if let Some(sv) = hint {
                                    assert(false);
                                }
                            }
                            return None;
                        },
                    };
                    Some(
                        (
                            PersistentClaimSpecifics::Revocation(
                                PersistentRevocationData { revoked_id: rid },
                            ),
                            p3,
                        ),
                    )
                },
                None => {
                    proof {
                        if let Some(sv) = hint {
                            match sv {
                                SpecificsV::Positive { claim_kind, claim_value } => {
                                    assert(at_pos(
                                        s@,
                                        pos as int,
                                        "{\"Positive\":{\"claim_kind\":"@,
                                    )) by {
                                        assert(specifics_json(sv).subrange(
                                            0,
                                            "{\"Positive\":{\"claim_kind\":"@.len() as int,
                                        ) =~= "{\"Positive\":{\"claim_kind\":"@);
                                        lemma_at_pos_sub(
                                            s@,
                                            pos as int,
                                            specifics_json(sv),
                                            0,
                                            "{\"Positive\":{\"claim_kind\":"@,
                                        );
                                    }
                                    assert(false);
                                },
                                SpecificsV::Revocation { revoked_id } => {
                                    assert(at_pos(
                                        s@,
                                        pos as int,
                                        "{\"Revocation\":{\"revoked_id\":"@,
                                    )) by {
                                        assert(specifics_json(sv).subrange(
                                            0,
                                            "{\"Revocation\":{\"revoked_id\":"@.len() as int,
                                        ) =~= "{\"Revocation\":{\"revoked_id\":"@);
                                        lemma_at_pos_sub(
                                            s@,
                                            pos as int,
                                            specifics_json(sv),
                                            0,
                                            "{\"Revocation\":{\"revoked_id\":"@,
                                        );
                                    }
                                    assert(false);
                                },
                            }
                        }
                    }
                    None
                },
            }
        },
    }
}

} // verus!

verus! {

#[verifier::rlimit(100)]
fn parse_claim_inner(s: &str, Ghost(hint): Ghost<Option<ClaimV>>) -> (r: Option<PersistentClaim>)
    requires
        hint matches Some(cv) ==> s@ == claim_json(cv),
    ensures
        hint matches Some(cv) ==> r matches Some(c) && c@ == cv,
{
    let n = s.unicode_len();
    proof {
        if let Some(cv) = hint {
            assert(at_pos(s@, 0, claim_json(cv))) by {
                assert(s@.subrange(0, claim_json(cv).len() as int) =~= claim_json(cv));
            }
            assert(at_pos(s@, 0, "{\"id\":"@)) by {
                assert(claim_json(cv).subrange(0, "{\"id\":"@.len() as int) =~= "{\"id\":"@);
                lemma_at_pos_sub(s@, 0, claim_json(cv), 0, "{\"id\":"@);
            }
        }
    }
    let p1 = match match_lit(s, 0, "{\"id\":") {
        Some(p) => p,
        None => {
            proof {
                if let Some(cv) = hint {
                    assert(false);
                }
            }
            return None;
        },
    };
    let ghost h_id: Option<Seq<char>> = match hint {
        Some(cv) => Some(cv.id),
        None => None,
    };
    proof {
        if let Some(cv) = hint {
            assert(at_pos(s@, p1 as int, json_string(cv.id))) by {
                assert(claim_json(cv).subrange(p1 as int, p1 + json_string(cv.id).len())
                    =~= json_string(cv.id));
                lemma_at_pos_sub(s@, 0, claim_json(cv), p1 as int, json_string(cv.id));
            }
        }
    }
    let (id, p2) = match parse_json_string(s, p1, Ghost(h_id)) {
        Some(x) => x,
        None => {
            proof {
                if let Some(cv) = hint {
                    assert(false);
                }
            }
            return None;
        },
    };
    proof {
        if let Some(cv) = hint {
            assert(at_pos(s@, p2 as int, ",\"uid\":"@)) by {
                assert(claim_json(cv).subrange(p2 as int, p2 + ",\"uid\":"@.len())
                    =~= ",\"uid\":"@);
                lemma_at_pos_sub(s@, 0, claim_json(cv), p2 as int, ",\"uid\":"@);
            }
        }
    }
    let p3 = match match_lit(s, p2, ",\"uid\":") {
        Some(p) => p,
        None => {
            proof {
                if let Some(cv) = hint {
                    assert(false);
                }
            }
            return None;
        },
    };
    let ghost h_uid: Option<Seq<char>> = match hint {
        Some(cv) => Some(cv.uid),
        None => None,
    };
    proof {
        if let Some(cv) = hint {
            assert(at_pos(s@, p3 as int, json_string(cv.uid))) by {
                assert(claim_json(cv).subrange(p3 as int, p3 + json_string(cv.uid).len())
                    =~= json_string(cv.uid));
                lemma_at_pos_sub(s@, 0, claim_json(cv), p3 as int, json_string(cv.uid));
            }
        }
    }
    let (uid, p4) = match parse_json_string(s, p3, Ghost(h_uid)) {
        Some(x) => x,
        None => {
            proof {
                if let Some(cv) = hint {
                    assert(false);
                }
            }
            return None;
        },
    };
    proof {
        if let Some(cv) = hint {
            assert(at_pos(s@, p4 as int, ",\"artifact_id\":"@)) by {
                assert(claim_json(cv).subrange(p4 as int, p4 + ",\"artifact_id\":"@.len())
                    =~= ",\"artifact_id\":"@);
                lemma_at_pos_sub(s@, 0, claim_json(cv), p4 as int, ",\"artifact_id\":"@);
            }
        }
    }
    let p5 = match match_lit(s, p4, ",\"artifact_id\":") {
        Some(p) => p,
        None => {
            proof {
                if let Some(cv) = hint {
                    assert(false);
                }
            }
            return None;
        },
    };
    let ghost h_aid: Option<Seq<char>> = match hint {
        Some(cv) => Some(cv.artifact_id),
        None => None,
    };
    proof {
        if let Some(cv) = hint {
            assert(at_pos(s@, p5 as int, json_string(cv.artifact_id))) by {
                assert(claim_json(cv).subrange(p5 as int, p5 + json_string(cv.artifact_id).len())
                    =~= json_string(cv.artifact_id));
                lemma_at_pos_sub(s@, 0, claim_json(cv), p5 as int, json_string(cv.artifact_id));
            }
        }
    }
    let (artifact_id, p6) = match parse_json_string(s, p5, Ghost(h_aid)) {
        Some(x) => x,
        None => {
            proof {
                if let Some(cv) = hint {
                    assert(false);
                }
            }
            return None;
        },
    };
    proof {
        if let Some(cv) = hint {
            assert(at_pos(s@, p6 as int, ",\"artifact_hash\":"@)) by {
                assert(claim_json(cv).subrange(p6 as int, p6 + ",\"artifact_hash\":"@.len())
                    =~= ",\"artifact_hash\":"@);
                lemma_at_pos_sub(s@, 0, claim_json(cv), p6 as int, ",\"artifact_hash\":"@);
            }
        }
    }
    let p7 = match match_lit(s, p6, ",\"artifact_hash\":") {
        Some(p) => p,
        None => {
            proof {
                if let Some(cv) = hint {
                    assert(false);
                }
            }
            return None;
        },
    };
    let ghost h_ah: Option<Seq<char>> = match hint {
        Some(cv) => Some(cv.artifact_hash),
        None => None,
    };
    proof {
        if let Some(cv) = hint {
            assert(at_pos(s@, p7 as int, json_string(cv.artifact_hash))) by {
                assert(claim_json(cv).subrange(
                    p7 as int,
                    p7 + json_string(cv.artifact_hash).len(),
                ) =~= json_string(cv.artifact_hash));
                lemma_at_pos_sub(
                    s@,
                    0,
                    claim_json(cv),
                    p7 as int,
                    json_string(cv.artifact_hash),
                );
            }
        }
    }
    let (artifact_hash, p8) = match parse_json_string(s, p7, Ghost(h_ah)) {
        Some(x) => x,
        None => {
            proof {
                if let Some(cv) = hint {
                    assert(false);
                }
            }
            return None;
        },
    };
    proof {
        if let Some(cv) = hint {
            assert(at_pos(s@, p8 as int, ",\"comment\":"@)) by {
                assert(claim_json(cv).subrange(p8 as int, p8 + ",\"comment\":"@.len())
                    =~= ",\"comment\":"@);
                lemma_at_pos_sub(s@, 0, claim_json(cv), p8 as int, ",\"comment\":"@);
            }
        }
    }
    let p9 = match match_lit(s, p8, ",\"comment\":") {
        Some(p) => p,
        None => {
            proof {
                if let Some(cv) = hint {
                    assert(false);
                }
            }
            return None;
        },
    };
    let ghost h_cm: Option<Option<Seq<char>>> = match hint {
        Some(cv) => Some(cv.comment),
        None => None,
    };
    proof {
        if let Some(cv) = hint {
            assert(at_pos(s@, p9 as int, opt_json(cv.comment))) by {
                assert(claim_json(cv).subrange(p9 as int, p9 + opt_json(cv.comment).len())
                    =~= opt_json(cv.comment));
                lemma_at_pos_sub(s@, 0, claim_json(cv), p9 as int, opt_json(cv.comment));
            }
        }
    }
    let (comment, p10) = match parse_opt_string(s, p9, Ghost(h_cm)) {
        Some(x) => x,
        None => {
            proof {
                if let Some(cv) = hint {
                    assert(false);
                }
            }
            return None;
        },
    };
    proof {
        if let Some(cv) = hint {
            assert(at_pos(s@, p10 as int, ",\"timestamp\":"@)) by {
                assert(claim_json(cv).subrange(p10 as int, p10 + ",\"timestamp\":"@.len())
                    =~= ",\"timestamp\":"@);
                lemma_at_pos_sub(s@, 0, claim_json(cv), p10 as int, ",\"timestamp\":"@);
            }
        }
    }
    let p11 = match match_lit(s, p10, ",\"timestamp\":") {
        Some(p) => p,
        None => {
            proof {
                if let Some(cv) = hint {
                    assert(false);
                }
            }
            return None;
        },
    };
    let ghost h_ts: Option<u64> = match hint {
        Some(cv) => Some(cv.timestamp),
        None => None,
    };
    proof {
        if let Some(cv) = hint {
            let dd = dec_digits(cv.timestamp as nat);
            assert(at_pos(s@, p11 as int, dd)) by {
                assert(claim_json(cv).subrange(p11 as int, p11 + dd.len()) =~= dd);
                lemma_at_pos_sub(s@, 0, claim_json(cv), p11 as int, dd);
            }
            assert(at_pos(s@, p11 + dd.len(), ",\"specifics\":"@)) by {
                assert(claim_json(cv).subrange(
                    p11 + dd.len(),
                    p11 + dd.len() + ",\"specifics\":"@.len(),
                ) =~= ",\"specifics\":"@);
                lemma_at_pos_sub(
                    s@,
                    0,
                    claim_json(cv),
                    p11 + dd.len(),
                    ",\"specifics\":"@,
                );
            }
            reveal_strlit(",\"specifics\":");
            assert(s@.subrange(
                p11 + dd.len(),
                p11 + dd.len() + ",\"specifics\":"@.len(),
            )[0] == ",\"specifics\":"@[0]);
            assert(s@[p11 + dd.len()] == ',');
            assert(!is_dec_digit(s@[p11 + dd.len()]));
        }
    }
    let (timestamp, p12) = match parse_u64(s, p11, Ghost(h_ts)) {
        Some(x) => x,
        None => {
            proof {
                if let Some(cv) = hint {
                    assert(false);
                }
            }
            return None;
        },
    };
    proof {
        if let Some(cv) = hint {
            assert(at_pos(s@, p12 as int, ",\"specifics\":"@)) by {
                assert(claim_json(cv).subrange(p12 as int, p12 + ",\"specifics\":"@.len())
                    =~= ",\"specifics\":"@);
                lemma_at_pos_sub(s@, 0, claim_json(cv), p12 as int, ",\"specifics\":"@);
            }
        }
    }
    let p13 = match match_lit(s, p12, ",\"specifics\":") {
        Some(p) => p,
        None => {
            proof {
                if let Some(cv) = hint {
                    assert(false);
                }
            }
            return None;
        },
    };
    let ghost h_sp: Option<SpecificsV> = match hint {
        Some(cv) => Some(cv.specifics),
        None => None,
    };
    proof {
        if let Some(cv) = hint {
            assert(at_pos(s@, p13 as int, specifics_json(cv.specifics))) by {
                assert(claim_json(cv).subrange(
                    p13 as int,
                    p13 + specifics_json(cv.specifics).len(),
                ) =~= specifics_json(cv.specifics));
                lemma_at_pos_sub(
                    s@,
                    0,
                    claim_json(cv),
                    p13 as int,
                    specifics_json(cv.specifics),
                );
            }
        }
    }
    let (specifics, p14) = match parse_specifics(s, p13, Ghost(h_sp)) {
        Some(x) => x,
        None => {
            proof {
                if let Some(cv) = hint {
                    assert(false);
                }
            }
            return None;
        },
    };
    proof {
        if let Some(cv) = hint {
            assert(at_pos(s@, p14 as int, "}"@)) by {
                assert(claim_json(cv).subrange(p14 as int, p14 + "}"@.len()) =~= "}"@);
                lemma_at_pos_sub(s@, 0, claim_json(cv), p14 as int, "}"@);
            }
        }
    }
    let p15 = match match_lit(s, p14, "}") {
        Some(p) => p,
        None => {
            proof {
                if let Some(cv) = hint {
                    assert(false);
                }
            }
            return None;
        },
    };
    if p15 != n {
        proof {
            if let Some(cv) = hint {
                assert(false);
            }
        }
        return None;
    }
    let c = PersistentClaim { id, uid, artifact_id, artifact_hash, comment, timestamp, specifics };
    proof {
        if let Some(cv) = hint {
            assert(c@ == cv);
        }
    }
    Some(c)
}

/// Reads a claim back from its canonical serialization. Exactly the canonical
/// documents are accepted: whenever the result is a claim, the input is that
/// claim's serialization, and a serialized claim is read back as itself.
pub fn parse_claim(s: &str) -> (r: Option<PersistentClaim>)
    ensures
        r matches Some(c) ==> s@ == claim_json(c@),
        forall|cv: ClaimV| s@ == claim_json(cv) ==> (r matches Some(c) && c@ == cv),
{
    let ghost hint: Option<ClaimV> = if exists|cv: ClaimV| s@ == claim_json(cv) {
        Some(choose|cv: ClaimV| s@ == claim_json(cv))
    } else {
        None
    };
    let c = match parse_claim_inner(s, Ghost(hint)) {
        Some(c) => c,
        None => {
            return None;
        },
    };
    let re = claim_to_json(&c);
    if crate::util::str_eq(re.as_str(), s) {
        proof {
            assert forall|cv: ClaimV| s@ == claim_json(cv) implies c@ == cv by {
                lemma_claim_json_injective(cv, c@);
            }
        }
        Some(c)
    } else {
        None
    }
}

} // verus!

verus! {

proof fn lemma_cancel(p: Seq<char>, a: Seq<char>, b: Seq<char>)
    requires
        p + a == p + b,
    ensures
        a == b,
{
    assert((p + a).len() == p.len() + a.len());
    assert((p + b).len() == p.len() + b.len());
    assert(a.len() == b.len());
    assert forall|i: int| 0 <= i < a.len() implies a[i] == b[i] by {
        assert((p + a)[p.len() + i] == a[i]);
        assert((p + b)[p.len() + i] == b[i]);
    }
    assert(a =~= b);
}

/// Whether the escaper rewrites this character.
pub open spec fn esc_special(c: char) -> bool {
    c == '"' || c == '\\' || (c as u32) < 32
}

proof fn lemma_hex_digit_inj(m: u8, n: u8)
    requires
        m < 16,
        n < 16,
        hex_digit(m) == hex_digit(n),
    ensures
        m == n,
{
}

/// Escaped text followed by a bare quote reads back in only one way: the
/// quote that ends a document string cannot lie inside the escaped text.
proof fn lemma_quote_code(a: Seq<char>, b: Seq<char>, x: Seq<char>, y: Seq<char>)
    requires
        esc_seq(a) + seq!['"'] + x == esc_seq(b) + seq!['"'] + y,
    ensures
        a == b,
        x == y,
    decreases a.len(),
{
    let lhs = esc_seq(a) + seq!['"'] + x;
    let rhs = esc_seq(b) + seq!['"'] + y;
    if a.len() == 0 && b.len() == 0 {
        assert(esc_seq(a) == Seq::<char>::empty());
        assert(esc_seq(b) == Seq::<char>::empty());
        assert(lhs =~= seq!['"'] + x);
        assert(rhs =~= seq!['"'] + y);
        lemma_cancel(seq!['"'], x, y);
        assert(a =~= b);
    } else if a.len() == 0 {
        assert(lhs[0] == '"');
        assert(rhs[0] == esc_char(b[0])[0]);
        if esc_special(b[0]) {
            assert(esc_char(b[0])[0] == '\\');
        } else {
            assert(esc_char(b[0])[0] == b[0]);
        }
        assert(false);
    } else if b.len() == 0 {
        assert(rhs[0] == '"');
        assert(lhs[0] == esc_char(a[0])[0]);
        if esc_special(a[0]) {
            assert(esc_char(a[0])[0] == '\\');
        } else {
            assert(esc_char(a[0])[0] == a[0]);
        }
        assert(false);
    } else {
        assert(lhs[0] == esc_char(a[0])[0]);
        assert(rhs[0] == esc_char(b[0])[0]);
        if !esc_special(a[0]) && !esc_special(b[0]) {
            assert(a[0] == b[0]);
        } else if esc_special(a[0]) && !esc_special(b[0]) {
            assert(esc_char(a[0])[0] == '\\');
            assert(esc_char(b[0])[0] == b[0]);
            assert(false);
        } else if !esc_special(a[0]) && esc_special(b[0]) {
            assert(esc_char(a[0])[0] == a[0]);
            assert(esc_char(b[0])[0] == '\\');
            assert(false);
        } else {
            assert(esc_char(a[0]).len() >= 2 && esc_char(b[0]).len() >= 2);
            assert(lhs[1] == esc_char(a[0])[1]);
            assert(rhs[1] == esc_char(b[0])[1]);
            if a[0] == '"' {
                assert(esc_char(a[0])[1] == '"');
                if b[0] == '\\' {
                    assert(esc_char(b[0])[1] == '\\');
                    assert(false);
                } else if (b[0] as u32) < 32 && b[0] != '"' {
                    assert(esc_char(b[0])[1] == 'u');
                    assert(false);
                }
                assert(b[0] == '"');
            } else if a[0] == '\\' {
                assert(esc_char(a[0])[1] == '\\');
                if b[0] == '"' {
                    assert(false);
                } else if (b[0] as u32) < 32 && b[0] != '"' && b[0] != '\\' {
                    assert(false);
                }
                assert(b[0] == '\\');
            } else {
                assert((a[0] as u32) < 32);
                assert(esc_char(a[0])[1] == 'u');
                if b[0] == '"' || b[0] == '\\' {
                    assert(false);
                }
                assert((b[0] as u32) < 32);
                assert(lhs[4] == esc_char(a[0])[4] && lhs[5] == esc_char(a[0])[5]);
                assert(rhs[4] == esc_char(b[0])[4] && rhs[5] == esc_char(b[0])[5]);
                lemma_hex_digit_inj((a[0] as u32 / 16) as u8, (b[0] as u32 / 16) as u8);
                lemma_hex_digit_inj((a[0] as u32 % 16) as u8, (b[0] as u32 % 16) as u8);
                assert(a[0] as u32 == b[0] as u32);
                vstd::utf8::char_u32_cast(a[0], a[0] as u32);
                vstd::utf8::char_u32_cast(b[0], b[0] as u32);
                assert(a[0] == b[0]);
            }
        }
        assert(a[0] == b[0]);
        let atail = esc_seq(a.drop_first()) + seq!['"'] + x;
        let btail = esc_seq(b.drop_first()) + seq!['"'] + y;
        assert(lhs =~= esc_char(a[0]) + atail);
        assert(rhs =~= esc_char(b[0]) + btail);
        assert(esc_char(a[0]) + atail == esc_char(a[0]) + btail);
        lemma_cancel(esc_char(a[0]), atail, btail);
        lemma_quote_code(a.drop_first(), b.drop_first(), x, y);
        assert(a =~= seq![a[0]] + a.drop_first());
        assert(b =~= seq![b[0]] + b.drop_first());
    }
}

/// A quoted document string is a prefix code.
proof fn lemma_json_string_code(a: Seq<char>, b: Seq<char>, x: Seq<char>, y: Seq<char>)
    requires
        json_string(a) + x == json_string(b) + y,
    ensures
        a == b,
        x == y,
{
    let atail = esc_seq(a) + seq!['"'] + x;
    let btail = esc_seq(b) + seq!['"'] + y;
    assert(json_string(a) + x =~= seq!['"'] + atail);
    assert(json_string(b) + y =~= seq!['"'] + btail);
    lemma_cancel(seq!['"'], atail, btail);
    lemma_quote_code(a, b, x, y);
}

} // verus!

verus! {

/// A decimal number followed by a non-digit is a prefix code.
proof fn lemma_dec_code(n1: nat, n2: nat, x: Seq<char>, y: Seq<char>)
    requires
        dec_digits(n1) + x == dec_digits(n2) + y,
        x.len() > 0,
        y.len() > 0,
        !is_dec_digit(x[0]),
        !is_dec_digit(y[0]),
    ensures
        n1 == n2,
        x == y,
{
    lemma_dec_digits_props(n1);
    lemma_dec_digits_props(n2);
    let d1 = dec_digits(n1);
    let d2 = dec_digits(n2);
    let lhs = d1 + x;
    let rhs = d2 + y;
    if d1.len() < d2.len() {
        assert(lhs[d1.len() as int] == x[0]);
        assert(rhs[d1.len() as int] == d2[d1.len() as int]);
        assert(is_dec_digit(d2[d1.len() as int]));
        assert(false);
    }
    if d2.len() < d1.len() {
        assert(lhs[d2.len() as int] == d1[d2.len() as int]);
        assert(rhs[d2.len() as int] == y[0]);
        assert(is_dec_digit(d1[d2.len() as int]));
        assert(false);
    }
    assert(d1 =~= d2) by {
        assert forall|i: int| 0 <= i < d1.len() implies d1[i] == d2[i] by {
            assert(lhs[i] == d1[i]);
            assert(rhs[i] == d2[i]);
        }
    }
    assert(digits_val(d1) == digits_val(d2));
    lemma_cancel(d1, x, y);
}

/// An optional document string is a prefix code.
proof fn lemma_opt_code(
    o1: Option<Seq<char>>,
    o2: Option<Seq<char>>,
    x: Seq<char>,
    y: Seq<char>,
)
    requires
        opt_json(o1) + x == opt_json(o2) + y,
    ensures
        o1 == o2,
        x == y,
{
    reveal_strlit("null");
    match (o1, o2) {
        (None, None) => {
            lemma_cancel("null"@, x, y);
        },
        (Some(a), Some(b)) => {
            lemma_json_string_code(a, b, x, y);
        },
        (None, Some(b)) => {
            assert((opt_json(o1) + x)[0] == "null"@[0]);
            assert((opt_json(o2) + y)[0] == '"');
            assert(false);
        },
        (Some(a), None) => {
            assert((opt_json(o1) + x)[0] == '"');
            assert((opt_json(o2) + y)[0] == "null"@[0]);
            assert(false);
        },
    }
}

/// The specifics member is a prefix code.
proof fn lemma_specifics_code(s1: SpecificsV, s2: SpecificsV, x: Seq<char>, y: Seq<char>)
    requires
        specifics_json(s1) + x == specifics_json(s2) + y,
    ensures
        s1 == s2,
        x == y,
{
    reveal_strlit("{\"Positive\":{\"claim_kind\":");
    reveal_strlit("{\"Revocation\":{\"revoked_id\":");
    reveal_strlit(",\"claim_value\":");
    reveal_strlit("}}");
    let lhs = specifics_json(s1) + x;
    let rhs = specifics_json(s2) + y;
    match (s1, s2) {
        (
            SpecificsV::Positive { claim_kind: k1, claim_value: v1 },
            SpecificsV::Positive { claim_kind: k2, claim_value: v2 },
        ) => {
            let t1 = json_string(k1) + (",\"claim_value\":"@ + (opt_json(v1) + ("}}"@ + x)));
            let t2 = json_string(k2) + (",\"claim_value\":"@ + (opt_json(v2) + ("}}"@ + y)));
            assert(lhs =~= "{\"Positive\":{\"claim_kind\":"@ + t1);
            assert(rhs =~= "{\"Positive\":{\"claim_kind\":"@ + t2);
            lemma_cancel("{\"Positive\":{\"claim_kind\":"@, t1, t2);
            lemma_json_string_code(
                k1,
                k2,
                ",\"claim_value\":"@ + (opt_json(v1) + ("}}"@ + x)),
                ",\"claim_value\":"@ + (opt_json(v2) + ("}}"@ + y)),
            );
            lemma_cancel(
                ",\"claim_value\":"@,
                opt_json(v1) + ("}}"@ + x),
                opt_json(v2) + ("}}"@ + y),
            );
            assert(opt_json(v1) + ("}}"@ + x) =~= opt_json(v1) + ("}}"@ + x));
            lemma_opt_code(v1, v2, "}}"@ + x, "}}"@ + y);
            lemma_cancel("}}"@, x, y);
        },
        (
            SpecificsV::Revocation { revoked_id: r1 },
            SpecificsV::Revocation { revoked_id: r2 },
        ) => {
            let t1 = json_string(r1) + ("}}"@ + x);
            let t2 = json_string(r2) + ("}}"@ + y);
            assert(lhs =~= "{\"Revocation\":{\"revoked_id\":"@ + t1);
            assert(rhs =~= "{\"Revocation\":{\"revoked_id\":"@ + t2);
            lemma_cancel("{\"Revocation\":{\"revoked_id\":"@, t1, t2);
            lemma_json_string_code(r1, r2, "}}"@ + x, "}}"@ + y);
            lemma_cancel("}}"@, x, y);
        },
        (SpecificsV::Positive { .. }, SpecificsV::Revocation { .. }) => {
            assert(lhs[2] == "{\"Positive\":{\"claim_kind\":"@[2]);
            assert(rhs[2] == "{\"Revocation\":{\"revoked_id\":"@[2]);
            assert(false);
        },
        (SpecificsV::Revocation { .. }, SpecificsV::Positive { .. }) => {
            assert(lhs[2] == "{\"Revocation\":{\"revoked_id\":"@[2]);
            assert(rhs[2] == "{\"Positive\":{\"claim_kind\":"@[2]);
            assert(false);
        },
    }
}

/// The members of a document from the comment on, right-nested.
spec fn claim_json_tail(c: ClaimV) -> Seq<char> {
    opt_json(c.comment) + (",\"timestamp\":"@ + (dec_digits(c.timestamp as nat) + (
    ",\"specifics\":"@ + (specifics_json(c.specifics) + "}"@))))
}

/// The members of a document from the artifact identifier on, right-nested.
spec fn claim_json_mid(c: ClaimV) -> Seq<char> {
    json_string(c.artifact_id) + (",\"artifact_hash\":"@ + (json_string(c.artifact_hash) + (
    ",\"comment\":"@ + claim_json_tail(c))))
}

proof fn lemma_assoc3(x: Seq<char>, y: Seq<char>, z: Seq<char>)
    ensures
        (x + y) + z == x + (y + z),
{
    assert((x + y) + z =~= x + (y + z));
}

/// A document re-associated so that each member heads its own suffix.
proof fn lemma_claim_json_unroll(c: ClaimV)
    ensures
        claim_json(c) == "{\"id\":"@ + (json_string(c.id) + (",\"uid\":"@ + (json_string(
            c.uid,
        ) + (",\"artifact_id\":"@ + claim_json_mid(c))))),
{
    let l0 = "{\"id\":"@;
    let j1 = json_string(c.id);
    let l2 = ",\"uid\":"@;
    let j3 = json_string(c.uid);
    let l4 = ",\"artifact_id\":"@;
    let j5 = json_string(c.artifact_id);
    let l6 = ",\"artifact_hash\":"@;
    let j7 = json_string(c.artifact_hash);
    let l8 = ",\"comment\":"@;
    let o9 = opt_json(c.comment);
    let l10 = ",\"timestamp\":"@;
    let d11 = dec_digits(c.timestamp as nat);
    let l12 = ",\"specifics\":"@;
    let s13 = specifics_json(c.specifics);
    let l14 = "}"@;
    let p1 = l0 + j1;
    let p2 = p1 + l2;
    let p3 = p2 + j3;
    let p4 = p3 + l4;
    let p5 = p4 + j5;
    let p6 = p5 + l6;
    let p7 = p6 + j7;
    let p8 = p7 + l8;
    let p9 = p8 + o9;
    let p10 = p9 + l10;
    let p11 = p10 + d11;
    let p12 = p11 + l12;
    let p13 = p12 + s13;
    assert(claim_json(c) == p13 + l14);
    lemma_assoc3(p12, s13, l14);
    let r13 = s13 + l14;
    lemma_assoc3(p11, l12, r13);
    let r12 = l12 + r13;
    lemma_assoc3(p10, d11, r12);
    let r11 = d11 + r12;
    lemma_assoc3(p9, l10, r11);
    let r10 = l10 + r11;
    lemma_assoc3(p8, o9, r10);
    let r9 = o9 + r10;
    lemma_assoc3(p7, l8, r9);
    let r8 = l8 + r9;
    lemma_assoc3(p6, j7, r8);
    let r7 = j7 + r8;
    lemma_assoc3(p5, l6, r7);
    let r6 = l6 + r7;
    lemma_assoc3(p4, j5, r6);
    let r5 = j5 + r6;
    lemma_assoc3(p3, l4, r5);
    let r4 = l4 + r5;
    lemma_assoc3(p2, j3, r4);
    let r3 = j3 + r4;
    lemma_assoc3(p1, l2, r3);
    let r2 = l2 + r3;
    lemma_assoc3(l0, j1, r2);
    assert(r9 == claim_json_tail(c));
    assert(r5 == claim_json_mid(c));
    assert(claim_json(c) == l0 + (j1 + r2));
}

#[verifier::rlimit(100)]
#[verifier::spinoff_prover]
proof fn lemma_claim_json_head1(c1: ClaimV, c2: ClaimV)
    requires
        claim_json(c1) == claim_json(c2),
    ensures
        c1.id == c2.id,
        c1.uid == c2.uid,
        claim_json_mid(c1) == claim_json_mid(c2),
{
    let r3a = ",\"artifact_id\":"@ + claim_json_mid(c1);
    let r3b = ",\"artifact_id\":"@ + claim_json_mid(c2);
    let r2a = json_string(c1.uid) + r3a;
    let r2b = json_string(c2.uid) + r3b;
    let r1a = ",\"uid\":"@ + r2a;
    let r1b = ",\"uid\":"@ + r2b;
    let t1 = json_string(c1.id) + r1a;
    let t2 = json_string(c2.id) + r1b;
    lemma_claim_json_unroll(c1);
    lemma_claim_json_unroll(c2);
    assert(claim_json(c1) == "{\"id\":"@ + t1);
    assert(claim_json(c2) == "{\"id\":"@ + t2);
    lemma_cancel("{\"id\":"@, t1, t2);
    lemma_json_string_code(c1.id, c2.id, r1a, r1b);
    lemma_cancel(",\"uid\":"@, r2a, r2b);
    lemma_json_string_code(c1.uid, c2.uid, r3a, r3b);
    lemma_cancel(",\"artifact_id\":"@, claim_json_mid(c1), claim_json_mid(c2));
}

#[verifier::rlimit(100)]
#[verifier::spinoff_prover]
proof fn lemma_claim_json_head2(c1: ClaimV, c2: ClaimV)
    requires
        claim_json_mid(c1) == claim_json_mid(c2),
    ensures
        c1.artifact_id == c2.artifact_id,
        c1.artifact_hash == c2.artifact_hash,
        claim_json_tail(c1) == claim_json_tail(c2),
{
    let r7a = ",\"comment\":"@ + claim_json_tail(c1);
    let r7b = ",\"comment\":"@ + claim_json_tail(c2);
    let r6a = json_string(c1.artifact_hash) + r7a;
    let r6b = json_string(c2.artifact_hash) + r7b;
    let r5a = ",\"artifact_hash\":"@ + r6a;
    let r5b = ",\"artifact_hash\":"@ + r6b;
    assert(claim_json_mid(c1) =~= json_string(c1.artifact_id) + r5a);
    assert(claim_json_mid(c2) =~= json_string(c2.artifact_id) + r5b);
    lemma_json_string_code(c1.artifact_id, c2.artifact_id, r5a, r5b);
    lemma_cancel(",\"artifact_hash\":"@, r6a, r6b);
    lemma_json_string_code(c1.artifact_hash, c2.artifact_hash, r7a, r7b);
    lemma_cancel(",\"comment\":"@, claim_json_tail(c1), claim_json_tail(c2));
}

proof fn lemma_claim_json_tail(c1: ClaimV, c2: ClaimV)
    requires
        claim_json_tail(c1) == claim_json_tail(c2),
    ensures
        c1.comment == c2.comment,
        c1.timestamp == c2.timestamp,
        c1.specifics == c2.specifics,
{
    reveal_strlit(",\"specifics\":");
    let r13 = "}"@;
    let r12a = specifics_json(c1.specifics) + r13;
    let r12b = specifics_json(c2.specifics) + r13;
    let r11a = ",\"specifics\":"@ + r12a;
    let r11b = ",\"specifics\":"@ + r12b;
    let r10a = dec_digits(c1.timestamp as nat) + r11a;
    let r10b = dec_digits(c2.timestamp as nat) + r11b;
    let r9a = ",\"timestamp\":"@ + r10a;
    let r9b = ",\"timestamp\":"@ + r10b;
    assert(claim_json_tail(c1) =~= opt_json(c1.comment) + r9a);
    assert(claim_json_tail(c2) =~= opt_json(c2.comment) + r9b);
    lemma_opt_code(c1.comment, c2.comment, r9a, r9b);
    lemma_cancel(",\"timestamp\":"@, r10a, r10b);
    assert(r11a[0] == ',') by {
        assert(",\"specifics\":"@[0] == ',');
    }
    assert(r11b[0] == ',');
    assert(!is_dec_digit(r11a[0]));
    lemma_dec_code(c1.timestamp as nat, c2.timestamp as nat, r11a, r11b);
    assert(c1.timestamp == c2.timestamp);
    lemma_cancel(",\"specifics\":"@, r12a, r12b);
    lemma_specifics_code(c1.specifics, c2.specifics, r13, r13);
}

/// No two claims serialize alike: a canonical document identifies its claim.
pub proof fn lemma_claim_json_injective(c1: ClaimV, c2: ClaimV)
    requires
        claim_json(c1) == claim_json(c2),
    ensures
        c1 == c2,
{
    lemma_claim_json_head1(c1, c2);
    lemma_claim_json_head2(c1, c2);
    lemma_claim_json_tail(c1, c2);
    assert(c1 == c2);
}

} // verus!
