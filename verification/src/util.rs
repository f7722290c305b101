use vstd::prelude::*;

verus! {

/// The lowercase hexadecimal digit for a value below 16.
pub open spec fn hex_digit(n: u8) -> char
    recommends
        n < 16,
{
    if n == 0 { '0' } else if n == 1 { '1' } else if n == 2 { '2' } else if n == 3 { '3' }
    else if n == 4 { '4' } else if n == 5 { '5' } else if n == 6 { '6' } else if n == 7 { '7' }
    else if n == 8 { '8' } else if n == 9 { '9' } else if n == 10 { 'a' } else if n == 11 { 'b' }
    else if n == 12 { 'c' } else if n == 13 { 'd' } else if n == 14 { 'e' } else { 'f' }
}

/// The two lowercase hex digits of one byte, high nibble first.
pub open spec fn hex_byte(b: u8) -> Seq<char> {
    seq![hex_digit(b / 16), hex_digit(b % 16)]
}

/// The lowercase hex encoding of a byte sequence: two digits per byte.
pub open spec fn hex_of(bytes: Seq<u8>) -> Seq<char>
    decreases bytes.len(),
{
    if bytes.len() == 0 {
        Seq::empty()
    } else {
        hex_byte(bytes[0]) + hex_of(bytes.drop_first())
    }
}

pub fn hex_digit_char(n: u8) -> (c: char)
    requires
        n < 16,
    ensures
        c == hex_digit(n),
{
    if n == 0 { '0' } else if n == 1 { '1' } else if n == 2 { '2' } else if n == 3 { '3' }
    else if n == 4 { '4' } else if n == 5 { '5' } else if n == 6 { '6' } else if n == 7 { '7' }
    else if n == 8 { '8' } else if n == 9 { '9' } else if n == 10 { 'a' } else if n == 11 { 'b' }
    else if n == 12 { 'c' } else if n == 13 { 'd' } else if n == 14 { 'e' } else { 'f' }
}

/// Relies on String::push: appends the given char to the end of this String.
#[verifier::external_body]
pub fn push_char(s: &mut String, c: char)
    ensures
        final(s)@ == old(s)@ + seq![c],
{
    s.push(c)
}

pub proof fn lemma_hex_of_snoc(bytes: Seq<u8>, b: u8)
    ensures
        hex_of(bytes + seq![b]) == hex_of(bytes) + hex_byte(b),
    decreases bytes.len(),
{
    if bytes.len() == 0 {
        assert(bytes + seq![b] =~= seq![b]);
        assert(seq![b].drop_first() =~= Seq::<u8>::empty());
        assert(hex_of(Seq::<u8>::empty()) =~= Seq::<char>::empty());
        assert(hex_of(seq![b]) == hex_byte(seq![b][0]) + hex_of(seq![b].drop_first()));
        assert(hex_of(seq![b]) =~= hex_byte(b));
        assert(hex_of(bytes) + hex_byte(b) =~= hex_byte(b));
    } else {
        assert((bytes + seq![b]).drop_first() =~= bytes.drop_first() + seq![b]);
        lemma_hex_of_snoc(bytes.drop_first(), b);
        assert(hex_of(bytes + seq![b]) =~= hex_of(bytes) + hex_byte(b));
    }
}

/// Appends the lowercase hex encoding of `bytes` to `w`.
pub fn write_hex_bytes(w: &mut String, bytes: &[u8])
    ensures
        final(w)@ == old(w)@ + hex_of(bytes@),
{
    let mut i: usize = 0;
    while i < bytes.len()
        invariant
            i <= bytes@.len(),
            w@ == old(w)@ + hex_of(bytes@.take(i as int)),
        decreases bytes@.len() - i,
    {
        let b = bytes[i];
        push_char(w, hex_digit_char(b / 16));
        push_char(w, hex_digit_char(b % 16));
        proof {
            lemma_hex_of_snoc(bytes@.take(i as int), b);
            assert(bytes@.take(i as int) + seq![bytes@[i as int]] =~= bytes@.take(i + 1));
        }
        i += 1;
    }
    proof {
        assert(bytes@.take(bytes@.len() as int) =~= bytes@);
    }
}

/// The lowercase hex encoding of `bytes` as a fresh string.
pub fn to_hex_string(bytes: &[u8]) -> (s: String)
    ensures
        s@ == hex_of(bytes@),
{
    let mut s = String::new();
    write_hex_bytes(&mut s, bytes);
    s
}

} // verus!

verus! {

/// The index of the first occurrence of `sep` in `s`, or -1 if there is none.
pub open spec fn find_char(s: Seq<char>, sep: char) -> int
    decreases s.len(),
{
    if s.len() == 0 {
        -1
    } else if s[0] == sep {
        0
    } else {
        let r = find_char(s.drop_first(), sep);
        if r < 0 {
            -1
        } else {
            r + 1
        }
    }
}

/// Splitting `s` at every occurrence of `sep`: one segment more than there
/// are separators, in order, each free of `sep`.
pub open spec fn split_on(s: Seq<char>, sep: char) -> Seq<Seq<char>>
    decreases s.len(),
    via split_on_decreases
{
    let i = find_char(s, sep);
    if i < 0 {
        seq![s]
    } else {
        seq![s.take(i)] + split_on(s.skip(i + 1), sep)
    }
}

#[via_fn]
proof fn split_on_decreases(s: Seq<char>, sep: char) {
    lemma_find_char_bounds(s, sep);
}

pub proof fn lemma_find_char_bounds(s: Seq<char>, sep: char)
    ensures
        -1 <= find_char(s, sep) < s.len(),
        find_char(s, sep) >= 0 ==> s[find_char(s, sep)] == sep,
        forall|k: int| 0 <= k < find_char(s, sep) ==> s[k] != sep,
        find_char(s, sep) == -1 ==> forall|k: int| 0 <= k < s.len() ==> s[k] != sep,
    decreases s.len(),
{
    if s.len() > 0 && s[0] != sep {
        lemma_find_char_bounds(s.drop_first(), sep);
        assert(forall|k: int| 0 < k < s.len() ==> s[k] == s.drop_first()[k - 1]);
    }
}

pub proof fn lemma_find_char_at(s: Seq<char>, sep: char, i: int)
    requires
        0 <= i < s.len(),
        s[i] == sep,
        forall|k: int| 0 <= k < i ==> s[k] != sep,
    ensures
        find_char(s, sep) == i,
    decreases i,
{
    if i > 0 {
        lemma_find_char_at(s.drop_first(), sep, i - 1);
        assert(forall|k: int| 0 <= k < i - 1 ==> s.drop_first()[k] == s[k + 1]);
    }
}

/// Splits a string at every occurrence of `sep`.
pub fn split_str(s: &str, sep: char) -> (r: Vec<String>)
    ensures
        r@.map_values(|t: String| t@) == split_on(s@, sep),
{
    let n = s.unicode_len();
    let mut parts: Vec<String> = Vec::new();
    let mut start: usize = 0;
    let mut i: usize = 0;
    proof {
        assert(s@.skip(0) =~= s@);
        assert(parts@.map_values(|t: String| t@) + split_on(s@, sep) =~= split_on(s@, sep));
    }
    while i < n
        invariant
            n == s@.len(),
            start <= i <= n,
            forall|k: int| start <= k < i ==> s@[k] != sep,
            parts@.map_values(|t: String| t@) + split_on(s@.skip(start as int), sep) == split_on(
                s@,
                sep,
            ),
        decreases n - i,
    {
        if s.get_char(i) == sep {
            let seg = s.substring_char(start, i);
            let ghost parts_before = parts@;
            parts.push(seg.to_owned());
            proof {
                let tail = s@.skip(start as int);
                assert(forall|k: int| 0 <= k < i - start ==> tail[k] == s@[k + start]);
                lemma_find_char_at(tail, sep, i - start);
                assert(tail.take(i - start) =~= s@.subrange(start as int, i as int));
                assert(tail.skip(i - start + 1) =~= s@.skip(i + 1));
                assert(parts@.map_values(|t: String| t@) =~= parts_before.map_values(
                    |t: String| t@,
                ).push(seg@));
                assert(parts@.map_values(|t: String| t@) + split_on(s@.skip(i + 1), sep)
                    =~= parts_before.map_values(|t: String| t@) + split_on(
                    s@.skip(start as int),
                    sep,
                ));
            }
            start = i + 1;
        }
        i += 1;
    }
    let seg = s.substring_char(start, n);
    let ghost parts_before = parts@;
    parts.push(seg.to_owned());
    proof {
        let tail = s@.skip(start as int);
        assert(forall|k: int| 0 <= k < tail.len() ==> tail[k] == s@[k + start]);
        lemma_find_char_bounds(tail, sep);
        assert(find_char(tail, sep) == -1) by {
            if find_char(tail, sep) >= 0 {
                assert(tail[find_char(tail, sep)] == sep);
            }
        }
        assert(split_on(tail, sep) == seq![tail]);
        assert(seg@ == tail);
        assert(parts@.map_values(|t: String| t@) =~= parts_before.map_values(|t: String| t@).push(
            seg@,
        ));
        assert(parts@.map_values(|t: String| t@) =~= split_on(s@, sep));
    }
    parts
}

/// Whether two string slices hold the same characters.
pub fn str_eq(a: &str, b: &str) -> (r: bool)
    ensures
        r == (a@ == b@),
{
    let na = a.unicode_len();
    let nb = b.unicode_len();
    if na != nb {
        return false;
    }
    let mut i: usize = 0;
    while i < na
        invariant
            na == a@.len(),
            na == b@.len(),
            i <= na,
            forall|k: int| 0 <= k < i ==> a@[k] == b@[k],
        decreases na - i,
    {
        if a.get_char(i) != b.get_char(i) {
            return false;
        }
        i += 1;
    }
    proof {
        assert(a@ =~= b@);
    }
    true
}

} // verus!

verus! {

pub proof fn lemma_hex_of_props(bs: Seq<u8>)
    ensures
        hex_of(bs).len() == 2 * bs.len(),
        forall|k: int|
            0 <= k < bs.len() ==> #[trigger] hex_of(bs)[2 * k] == hex_digit(bs[k] / 16) && hex_of(
                bs,
            )[2 * k + 1] == hex_digit(bs[k] % 16),
    decreases bs.len(),
{
    if bs.len() > 0 {
        lemma_hex_of_props(bs.drop_first());
        assert(forall|k: int|
            0 <= k < bs.drop_first().len() ==> #[trigger] bs.drop_first()[k] == bs[k + 1]);
        assert forall|k: int| 0 <= k < bs.len() implies #[trigger] hex_of(bs)[2 * k] == hex_digit(
            bs[k] / 16,
        ) && hex_of(bs)[2 * k + 1] == hex_digit(bs[k] % 16) by {
            if k > 0 {
                assert(hex_of(bs.drop_first())[2 * (k - 1)] == hex_digit(
                    bs.drop_first()[k - 1] / 16,
                ));
                assert(hex_of(bs.drop_first())[2 * (k - 1) + 1] == hex_digit(
                    bs.drop_first()[k - 1] % 16,
                ));
                assert(hex_of(bs)[2 * k] == hex_of(bs.drop_first())[2 * k - 2]);
                assert(hex_of(bs)[2 * k + 1] == hex_of(bs.drop_first())[2 * k - 1]);
            }
        }
    }
}

pub fn hex_val(c: char) -> (r: Option<u8>)
    ensures
        r matches Some(x) ==> x < 16 && hex_digit(x) == c,
        forall|x: u8| x < 16 && c == hex_digit(x) ==> r == Some(x),
{
    if c == '0' { Some(0) } else if c == '1' { Some(1) } else if c == '2' { Some(2) }
    else if c == '3' { Some(3) } else if c == '4' { Some(4) } else if c == '5' { Some(5) }
    else if c == '6' { Some(6) } else if c == '7' { Some(7) } else if c == '8' { Some(8) }
    else if c == '9' { Some(9) } else if c == 'a' { Some(10) } else if c == 'b' { Some(11) }
    else if c == 'c' { Some(12) } else if c == 'd' { Some(13) } else if c == 'e' { Some(14) }
    else if c == 'f' { Some(15) } else { None }
}

/// Reads a lowercase hex encoding back into bytes. Exactly the strings
/// written by the hex encoder are accepted.
pub fn parse_hex(s: &str) -> (r: Option<Vec<u8>>)
    ensures
        r matches Some(b) ==> s@ == hex_of(b@),
        (exists|bs: Seq<u8>| s@ == hex_of(bs)) ==> r is Some,
{
    let ghost hint: Option<Seq<u8>> = if exists|bs: Seq<u8>| s@ == hex_of(bs) {
        Some(choose|bs: Seq<u8>| s@ == hex_of(bs))
    } else {
        None
    };
    proof {
        if let Some(bs) = hint {
            lemma_hex_of_props(bs);
        }
    }
    let n = s.unicode_len();
    if n % 2 != 0 {
        proof {
            if let Some(bs) = hint {
                assert(false);
            }
        }
        return None;
    }
    let mut out: Vec<u8> = Vec::new();
    let mut i: usize = 0;
    proof {
        assert(hex_of(out@) =~= s@.take(0));
    }
    while i < n
        invariant
            n == s@.len(),
            n % 2 == 0,
            i % 2 == 0,
            i <= n,
            out@.len() * 2 == i,
            hex_of(out@) == s@.take(i as int),
            hint matches Some(bs) ==> s@ == hex_of(bs),
            hint is None ==> !(exists|bs: Seq<u8>| s@ == hex_of(bs)),
        decreases n - i,
    {
        let c1 = s.get_char(i);
        let c2 = s.get_char(i + 1);
        let v1 = hex_val(c1);
        let v2 = hex_val(c2);
        match (v1, v2) {
            (Some(a), Some(b)) => {
                let byte: u8 = a * 16 + b;
                let ghost out_before = out@;
                out.push(byte);
                proof {
                    lemma_hex_of_snoc(out_before, byte);
                    assert(out@ =~= out_before + seq![byte]);
                    assert(byte / 16 == a && byte % 16 == b);
                    assert(hex_byte(byte) =~= seq![c1, c2]);
                    assert(s@.take(i + 2) =~= s@.take(i as int) + seq![s@[i as int], s@[i + 1]]);
                    assert(hex_of(out@) =~= s@.take(i + 2));
                }
                i += 2;
            },
            _ => {
                proof {
                    if let Some(bs) = hint {
                        lemma_hex_of_props(bs);
                        let k = i as int / 2;
                        assert(2 * k == i as int);
                        assert(s@.len() == 2 * bs.len());
                        assert(0 <= k < bs.len());
                        assert(s@[2 * k] == hex_of(bs)[2 * k]);
                        assert(s@[2 * k + 1] == hex_of(bs)[2 * k + 1]);
                        assert(c1 == hex_digit(bs[k] / 16));
                        assert(c2 == hex_digit(bs[k] % 16));
                        assert(false);
                    }
                }
                return None;
            },
        }
    }
    proof {
        assert(s@.take(n as int) =~= s@);
    }
    Some(out)
}

} // verus!
