use vstd::prelude::*;
use vstd::slice::slice_subrange;
use vstd::multiset::Multiset;

verus! {

broadcast use vstd::std_specs::vec::axiom_vec_decreases_to_view, vstd::seq::axiom_seq_index_decreases;

#[verifier::external_type_specification]
#[verifier::external_body]
pub struct ExContext(ring::digest::Context);

/// The bytes fed so far into a running SHA-256 digest context.
pub uninterp spec fn fed(ctx: ring::digest::Context) -> Seq<u8>;

/// The SHA-256 digest of a byte sequence, as its 32 output bytes.
pub uninterp spec fn sha256_of(data: Seq<u8>) -> Seq<u8>;

/// Relies on ring::digest::Context::new with SHA256: starts a digest context
/// that has consumed no input yet.
#[verifier::external_body]
fn sha256_context_new() -> (ctx: ring::digest::Context)
    ensures
        fed(ctx) == Seq::<u8>::empty(),
{
    ring::digest::Context::new(&ring::digest::SHA256)
}

/// Relies on ring::digest::Context::update: appends the given bytes to the
/// input consumed by the context.
#[verifier::external_body]
fn sha256_context_update(ctx: &mut ring::digest::Context, data: &[u8])
    ensures
        fed(*final(ctx)) == fed(*old(ctx)) + data@,
{
    ctx.update(data)
}

/// Relies on ring::digest::Context::finish: returns the digest of all consumed
/// input; for SHA-256 the digest is 32 bytes long.
#[verifier::external_body]
fn sha256_context_finish(ctx: ring::digest::Context) -> (r: Vec<u8>)
    ensures
        r@ == sha256_of(fed(ctx)),
        r@.len() == 32,
{
    ctx.finish().as_ref().to_vec()
}

/// How many bytes one update feeds at most when streaming a large input.
pub const HASH_CHUNK_SIZE: usize = 65536;

/// Hashes a byte sequence, streaming it in fixed-size chunks.
pub fn hash_bytes(data: &[u8]) -> (r: Vec<u8>)
    ensures
        r@ == sha256_of(data@),
        r@.len() == 32,
{
    let mut ctx = sha256_context_new();
    hash_bytes_into(&mut ctx, data);
    proof {
        assert(Seq::<u8>::empty() + data@ =~= data@);
    }
    sha256_context_finish(ctx)
}

/// Feeds a byte sequence into a running context in fixed-size chunks.
fn hash_bytes_into(ctx: &mut ring::digest::Context, data: &[u8])
    ensures
        fed(*final(ctx)) == fed(*old(ctx)) + data@,
{
    let mut i: usize = 0;
    while i < data.len()
        invariant
            i <= data@.len(),
            fed(*ctx) == fed(*old(ctx)) + data@.take(i as int),
        decreases data@.len() - i,
    {
        let end = if data.len() - i > HASH_CHUNK_SIZE { i + HASH_CHUNK_SIZE } else { data.len() };
        let chunk = slice_subrange(data, i, end);
        sha256_context_update(ctx, chunk);
        proof {
            assert(data@.take(i as int) + data@.subrange(i as int, end as int) =~= data@.take(
                end as int,
            ));
        }
        i = end;
    }
    proof {
        assert(data@.take(data@.len() as int) =~= data@);
    }
}

/// One named entry of a directory: its name as bytes, and what it contains.
/// Symbolic links are excluded from a tree before it is hashed.
pub struct DirEntry {
    pub name: Vec<u8>,
    pub node: FsTree,
}

/// An in-memory picture of a file or of a directory tree.
pub enum FsTree {
    File(Vec<u8>),
    Dir(Vec<DirEntry>),
}

/// The byte stream a tree contributes to the digest: a file contributes its
/// contents; a directory contributes, for each entry in stored order, the
/// entry's name followed by the entry's own stream.
pub open spec fn tree_stream(t: FsTree) -> Seq<u8>
    decreases t,
{
    match t {
        FsTree::File(data) => data@,
        FsTree::Dir(entries) => entries_stream(entries@),
    }
}

/// The byte stream of a directory's entries, in stored order.
pub open spec fn entries_stream(es: Seq<DirEntry>) -> Seq<u8>
    decreases es, es.len(),
{
    if es.len() == 0 {
        Seq::empty()
    } else {
        es[0].name@ + tree_stream(es[0].node) + entries_stream(es.drop_first())
    }
}


/// Lexicographic order on byte strings: the order in which directory entries
/// are hashed.
pub open spec fn bytes_le(a: Seq<u8>, b: Seq<u8>) -> bool
    decreases a.len(),
{
    if a.len() == 0 {
        true
    } else if b.len() == 0 {
        false
    } else if a[0] < b[0] {
        true
    } else if a[0] > b[0] {
        false
    } else {
        bytes_le(a.drop_first(), b.drop_first())
    }
}

pub proof fn lemma_bytes_le_total(a: Seq<u8>, b: Seq<u8>)
    ensures
        bytes_le(a, b) || bytes_le(b, a),
    decreases a.len(),
{
    if a.len() > 0 && b.len() > 0 && a[0] == b[0] {
        lemma_bytes_le_total(a.drop_first(), b.drop_first());
    }
}

pub proof fn lemma_bytes_le_antisym(a: Seq<u8>, b: Seq<u8>)
    requires
        bytes_le(a, b),
        bytes_le(b, a),
    ensures
        a == b,
    decreases a.len(),
{
    if a.len() == 0 {
        assert(b.len() == 0);
        assert(a =~= b);
    } else {
        assert(b.len() > 0);
        assert(a[0] == b[0]);
        lemma_bytes_le_antisym(a.drop_first(), b.drop_first());
        assert(a =~= seq![a[0]] + a.drop_first());
        assert(b =~= seq![b[0]] + b.drop_first());
    }
}

pub proof fn lemma_bytes_le_trans(a: Seq<u8>, b: Seq<u8>, c: Seq<u8>)
    requires
        bytes_le(a, b),
        bytes_le(b, c),
    ensures
        bytes_le(a, c),
    decreases a.len(),
{
    if a.len() > 0 && b.len() > 0 && c.len() > 0 && a[0] == b[0] && b[0] == c[0] {
        lemma_bytes_le_trans(a.drop_first(), b.drop_first(), c.drop_first());
    }
}

/// Compares two names in the hashing order.
pub fn name_le(a: &Vec<u8>, b: &Vec<u8>) -> (r: bool)
    ensures
        r == bytes_le(a@, b@),
{
    let mut i: usize = 0;
    proof {
        assert(a@.skip(0) =~= a@);
        assert(b@.skip(0) =~= b@);
    }
    while i < a.len() && i < b.len()
        invariant
            i <= a@.len(),
            i <= b@.len(),
            bytes_le(a@, b@) == bytes_le(a@.skip(i as int), b@.skip(i as int)),
        decreases a@.len() - i,
    {
        if a[i] < b[i] {
            proof {
                assert(a@.skip(i as int)[0] == a@[i as int]);
                assert(b@.skip(i as int)[0] == b@[i as int]);
            }
            return true;
        }
        if a[i] > b[i] {
            proof {
                assert(a@.skip(i as int)[0] == a@[i as int]);
                assert(b@.skip(i as int)[0] == b@[i as int]);
            }
            return false;
        }
        proof {
            assert(a@.skip(i as int)[0] == a@[i as int]);
            assert(b@.skip(i as int)[0] == b@[i as int]);
            assert(a@.skip(i as int).drop_first() =~= a@.skip(i + 1));
            assert(b@.skip(i as int).drop_first() =~= b@.skip(i + 1));
        }
        i += 1;
    }
    proof {
        if i >= a@.len() {
            assert(a@.skip(i as int).len() == 0);
        } else {
            assert(b@.skip(i as int).len() == 0);
            assert(a@.skip(i as int).len() > 0);
        }
    }
    i >= a.len()
}

/// Whether a directory's entries stand in hashing order.
pub open spec fn entries_sorted(es: Seq<DirEntry>) -> bool {
    forall|i: int, j: int| 0 <= i < j < es.len() ==> bytes_le(es[i].name@, es[j].name@)
}

/// Whether no two entries of a directory share a name.
pub open spec fn distinct_names(es: Seq<DirEntry>) -> bool {
    forall|i: int, j: int| 0 <= i < j < es.len() ==> es[i].name@ != es[j].name@
}

fn find_insert_pos(out: &Vec<DirEntry>, e: &DirEntry) -> (k: usize)
    ensures
        k <= out@.len(),
        forall|idx: int| 0 <= idx < k ==> bytes_le(out@[idx].name@, e.name@),
        k < out@.len() ==> !bytes_le(out@[k as int].name@, e.name@),
{
    let mut k: usize = 0;
    while k < out.len()
        invariant
            k <= out@.len(),
            forall|idx: int| 0 <= idx < k ==> bytes_le(out@[idx].name@, e.name@),
        decreases out@.len() - k,
    {
        if !name_le(&out[k].name, &e.name) {
            return k;
        }
        k += 1;
    }
    k
}

fn insert_entry(out: &mut Vec<DirEntry>, e: DirEntry)
    requires
        entries_sorted(old(out)@),
    ensures
        entries_sorted(final(out)@),
        final(out)@.to_multiset() == old(out)@.to_multiset().insert(e),
{
    let ghost before = out@;
    let ghost ge = e;
    let k = find_insert_pos(out, &e);
    out.insert(k, e);
    proof {
        broadcast use vstd::seq_lib::to_multiset_insert;

        before.insert_ensures(k as int, ge);
        let after = before.insert(k as int, ge);
        assert forall|i: int, j: int| 0 <= i < j < after.len() implies bytes_le(
            after[i].name@,
            after[j].name@,
        ) by {
            if j < k {
                assert(after[i] == before[i] && after[j] == before[j]);
            } else if i > k {
                assert(after[i] == before[i - 1] && after[j] == before[j - 1]);
            } else if i < k && j > k {
                assert(after[i] == before[i] && after[j] == before[j - 1]);
            } else if j == k {
                assert(after[i] == before[i] && after[j] == ge);
            } else {
                // i == k: the new entry stands before a kept entry
                assert(after[i] == ge && after[j] == before[j - 1]);
                if k < before.len() {
                    lemma_bytes_le_total(before[k as int].name@, ge.name@);
                    if j - 1 > k {
                        lemma_bytes_le_trans(
                            ge.name@,
                            before[k as int].name@,
                            before[j - 1].name@,
                        );
                    }
                }
            }
        }
    }
}

/// Sorts a directory's entries into hashing order. The result holds exactly
/// the given entries.
pub fn sort_entries(mut entries: Vec<DirEntry>) -> (r: Vec<DirEntry>)
    ensures
        entries_sorted(r@),
        r@.to_multiset() == entries@.to_multiset(),
{
    let ghost orig = entries@;
    let mut out: Vec<DirEntry> = Vec::new();
    proof {
        broadcast use vstd::multiset::group_multiset_axioms;
        broadcast use vstd::seq_lib::group_to_multiset_ensures;

        assert(out@.to_multiset() =~= Multiset::<DirEntry>::empty());
        assert(out@.to_multiset().add(entries@.to_multiset()) =~= orig.to_multiset());
    }
    while entries.len() > 0
        invariant
            entries_sorted(out@),
            out@.to_multiset().add(entries@.to_multiset()) == orig.to_multiset(),
        decreases entries@.len(),
    {
        let ghost es_before = entries@;
        let e = match entries.pop() {
            Some(e) => e,
            None => {
                proof {
                    assert(false);
                }
                continue
            },
        };
        proof {
            broadcast use vstd::multiset::group_multiset_axioms;
            broadcast use vstd::seq_lib::group_to_multiset_ensures;

            assert(es_before.remove(es_before.len() - 1) =~= es_before.drop_last());
            vstd::seq_lib::to_multiset_remove(es_before, es_before.len() - 1);
        }
        insert_entry(&mut out, e);
    }
    proof {
        broadcast use vstd::multiset::group_multiset_axioms;
        broadcast use vstd::seq_lib::group_to_multiset_ensures;

        assert(entries@.to_multiset().len() == 0);
        assert(out@.to_multiset() =~= orig.to_multiset());
    }
    out
}

} // verus!

verus! {

proof fn lemma_entries_stream_snoc(es: Seq<DirEntry>, e: DirEntry)
    ensures
        entries_stream(es + seq![e]) == entries_stream(es) + e.name@ + tree_stream(e.node),
    decreases es.len(),
{
    if es.len() == 0 {
        assert(es + seq![e] =~= seq![e]);
        assert(seq![e].drop_first() =~= Seq::<DirEntry>::empty());
        assert(entries_stream(Seq::<DirEntry>::empty()) == Seq::<u8>::empty());
        assert(entries_stream(es + seq![e]) =~= entries_stream(es) + e.name@ + tree_stream(
            e.node,
        ));
    } else {
        assert((es + seq![e]).drop_first() =~= es.drop_first() + seq![e]);
        lemma_entries_stream_snoc(es.drop_first(), e);
        assert((es + seq![e])[0] == es[0]);
        assert(entries_stream(es + seq![e]) =~= entries_stream(es) + e.name@ + tree_stream(
            e.node,
        ));
    }
}

/// The nesting depth of a tree: a termination measure for walking it.
pub open spec fn tree_ht(t: FsTree) -> nat
    decreases t,
{
    match t {
        FsTree::File(_) => 0,
        FsTree::Dir(entries) => 1 + entries_ht(entries@),
    }
}

/// The greatest nesting depth among a directory's entries.
pub open spec fn entries_ht(es: Seq<DirEntry>) -> nat
    decreases es, es.len(),
{
    if es.len() == 0 {
        0
    } else {
        let h0 = tree_ht(es[0].node);
        let hr = entries_ht(es.drop_first());
        if h0 > hr {
            h0
        } else {
            hr
        }
    }
}

proof fn lemma_entries_ht(es: Seq<DirEntry>, j: int)
    requires
        0 <= j < es.len(),
    ensures
        tree_ht(es[j].node) <= entries_ht(es),
    decreases es.len(),
{
    if j > 0 {
        lemma_entries_ht(es.drop_first(), j - 1);
        assert(es.drop_first()[j - 1] == es[j]);
    }
}

/// Feeds a whole tree's stream into a running context.
fn hash_tree_into(ctx: &mut ring::digest::Context, t: &FsTree)
    ensures
        fed(*final(ctx)) == fed(*old(ctx)) + tree_stream(*t),
    decreases tree_ht(*t),
{
    match t {
        FsTree::File(data) => {
            hash_bytes_into(ctx, data.as_slice());
        },
        FsTree::Dir(entries) => {
            let mut j: usize = 0;
            proof {
                assert(entries@.take(0) =~= Seq::<DirEntry>::empty());
                assert(fed(*ctx) + entries_stream(entries@.take(0)) =~= fed(*ctx));
            }
            while j < entries.len()
                invariant
                    j <= entries@.len(),
                    *t == FsTree::Dir(*entries),
                    fed(*ctx) == fed(*old(ctx)) + entries_stream(entries@.take(j as int)),
                decreases entries@.len() - j,
            {
                let e = &entries[j];
                hash_bytes_into(ctx, e.name.as_slice());
                proof {
                    lemma_entries_ht(entries@, j as int);
                }
                hash_tree_into(ctx, &e.node);
                proof {
                    lemma_entries_stream_snoc(entries@.take(j as int), entries@[j as int]);
                    assert(entries@.take(j as int) + seq![entries@[j as int]] =~= entries@.take(
                        j + 1,
                    ));
                    assert(fed(*old(ctx)) + entries_stream(entries@.take(j as int)) + e.name@
                        + tree_stream(e.node) =~= fed(*old(ctx)) + entries_stream(
                        entries@.take(j + 1),
                    ));
                }
                j += 1;
            }
            proof {
                assert(entries@.take(entries@.len() as int) =~= entries@);
            }
        },
    }
}

/// Hashes a file or directory tree into one digest. Hashing the same tree
/// twice yields the same digest, on any host: the result is a function of the
/// tree's stream alone.
pub fn hash_tree(t: &FsTree) -> (r: Vec<u8>)
    ensures
        r@ == sha256_of(tree_stream(*t)),
        r@.len() == 32,
{
    let mut ctx = sha256_context_new();
    hash_tree_into(&mut ctx, t);
    proof {
        assert(Seq::<u8>::empty() + tree_stream(*t) =~= tree_stream(*t));
    }
    sha256_context_finish(ctx)
}

/// Builds a directory node, sorting the entries into hashing order, so that
/// the digest does not depend on the order in which a directory was listed.
pub fn dir_from_entries(entries: Vec<DirEntry>) -> (r: FsTree)
    ensures
        r matches FsTree::Dir(es) && entries_sorted(es@) && es@.to_multiset()
            == entries@.to_multiset(),
{
    FsTree::Dir(sort_entries(entries))
}

/// The digest is a function of a tree's stream alone: hashing the same
/// content twice, anywhere, yields the same digest.
pub proof fn lemma_tree_digest_deterministic(t1: FsTree, t2: FsTree)
    requires
        tree_stream(t1) == tree_stream(t2),
    ensures
        sha256_of(tree_stream(t1)) == sha256_of(tree_stream(t2)),
{
}

/// Two sorted listings with no repeated names that hold the same entries are
/// the same listing.
pub proof fn lemma_sorted_distinct_entries_unique(x: Seq<DirEntry>, y: Seq<DirEntry>)
    requires
        entries_sorted(x),
        entries_sorted(y),
        distinct_names(x),
        x.to_multiset() == y.to_multiset(),
    ensures
        x == y,
    decreases x.len(),
{
    broadcast use vstd::multiset::group_multiset_axioms;
    broadcast use vstd::seq_lib::group_to_multiset_ensures;

    if x.len() == 0 {
        assert(y.len() == 0);
        assert(x =~= y);
    } else {
        assert(x.to_multiset().contains(x[0])) by {
            assert(x.contains(x[0]));
        }
        assert(y.to_multiset().contains(y[0])) by {
            assert(y.contains(y[0]));
        }
        assert(y.contains(x[0]));
        assert(x.contains(y[0]));
        let j = choose|j: int| 0 <= j < y.len() && y[j] == x[0];
        let i = choose|i: int| 0 <= i < x.len() && x[i] == y[0];
        if i != 0 && j != 0 {
            assert(bytes_le(x[0].name@, x[i].name@));
            assert(bytes_le(y[0].name@, y[j].name@));
            assert(y[0].name@ == x[i].name@ && y[j].name@ == x[0].name@);
            lemma_bytes_le_antisym(x[0].name@, x[i].name@);
            assert(false);
        }
        assert(y[0] == x[0]);
        assert(x.drop_first().to_multiset() == x.to_multiset().remove(x[0])) by {
            assert(x.remove(0) =~= x.drop_first());
            vstd::seq_lib::to_multiset_remove(x, 0);
        }
        assert(y.drop_first().to_multiset() == y.to_multiset().remove(y[0])) by {
            assert(y.remove(0) =~= y.drop_first());
            vstd::seq_lib::to_multiset_remove(y, 0);
        }
        assert(entries_sorted(x.drop_first())) by {
            assert(forall|p: int, q: int|
                0 <= p < q < x.drop_first().len() ==> x.drop_first()[p] == x[p + 1]
                    && x.drop_first()[q] == x[q + 1]);
        }
        assert(entries_sorted(y.drop_first())) by {
            assert(forall|p: int, q: int|
                0 <= p < q < y.drop_first().len() ==> y.drop_first()[p] == y[p + 1]
                    && y.drop_first()[q] == y[q + 1]);
        }
        assert(distinct_names(x.drop_first())) by {
            assert(forall|p: int, q: int|
                0 <= p < q < x.drop_first().len() ==> x.drop_first()[p] == x[p + 1]
                    && x.drop_first()[q] == x[q + 1]);
        }
        lemma_sorted_distinct_entries_unique(x.drop_first(), y.drop_first());
        assert forall|k: int| 0 <= k < x.len() implies x[k] == y[k] by {
            if k > 0 {
                assert(x.drop_first()[k - 1] == y.drop_first()[k - 1]);
            }
        }
        assert(x =~= y);
    }
}

/// Hashing a directory does not depend on the order in which its entries were
/// listed: two sorted listings of the same entries, with no repeated names,
/// produce the same stream, and so the same digest. In particular, swapping
/// two entries whole - name and contents together - leaves the digest as it
/// was.
pub proof fn lemma_dir_digest_order_independent(es1: Seq<DirEntry>, es2: Seq<DirEntry>)
    requires
        entries_sorted(es1),
        entries_sorted(es2),
        distinct_names(es1),
        es1.to_multiset() == es2.to_multiset(),
    ensures
        sha256_of(entries_stream(es1)) == sha256_of(entries_stream(es2)),
{
    lemma_sorted_distinct_entries_unique(es1, es2);
}

} // verus!
