//! Digests of the files that a COPY or ADD instruction brings into an image.
use vstd::bytes::{spec_u64_to_le_bytes, u64_to_le_bytes};
use vstd::prelude::*;
use vstd::relations::{sorted_by, total_ordering};

use crate::external::{blake3_digest, digest, feed, hashed, new_hasher};

verus! {

/// Whether `a` comes before `b` in the dictionary order of their bytes, or is the same.
pub open spec fn bytes_leq(a: Seq<u8>, b: Seq<u8>) -> bool
    decreases a.len(),
{
    if a.len() == 0 {
        true
    } else if b.len() == 0 {
        false
    } else if a[0] != b[0] {
        a[0] < b[0]
    } else {
        bytes_leq(a.drop_first(), b.drop_first())
    }
}

/// The dictionary order of byte strings.
pub open spec fn byte_order() -> spec_fn(Seq<u8>, Seq<u8>) -> bool {
    |a: Seq<u8>, b: Seq<u8>| bytes_leq(a, b)
}

proof fn lemma_leq_reflexive(a: Seq<u8>)
    ensures
        bytes_leq(a, a),
    decreases a.len(),
{
    if a.len() > 0 {
        lemma_leq_reflexive(a.drop_first());
    }
}

proof fn lemma_leq_antisymmetric(a: Seq<u8>, b: Seq<u8>)
    requires
        bytes_leq(a, b),
        bytes_leq(b, a),
    ensures
        a == b,
    decreases a.len(),
{
    if a.len() > 0 && b.len() > 0 {
        lemma_leq_antisymmetric(a.drop_first(), b.drop_first());
        assert(a =~= seq![a[0]] + a.drop_first());
        assert(b =~= seq![b[0]] + b.drop_first());
    } else {
        assert(a =~= b);
    }
}

proof fn lemma_leq_transitive(a: Seq<u8>, b: Seq<u8>, c: Seq<u8>)
    requires
        bytes_leq(a, b),
        bytes_leq(b, c),
    ensures
        bytes_leq(a, c),
    decreases a.len(),
{
    if a.len() > 0 && b.len() > 0 && c.len() > 0 && a[0] == b[0] && b[0] == c[0] {
        lemma_leq_transitive(a.drop_first(), b.drop_first(), c.drop_first());
    }
}

proof fn lemma_leq_total(a: Seq<u8>, b: Seq<u8>)
    ensures
        bytes_leq(a, b) || bytes_leq(b, a),
    decreases a.len(),
{
    if a.len() > 0 && b.len() > 0 && a[0] == b[0] {
        lemma_leq_total(a.drop_first(), b.drop_first());
    }
}

pub(crate) proof fn lemma_byte_order()
    ensures
        total_ordering(byte_order()),
{
    let r = byte_order();
    assert forall|x: Seq<u8>| #[trigger] r(x, x) by {
        lemma_leq_reflexive(x);
    }
    assert forall|x: Seq<u8>, y: Seq<u8>| #[trigger] r(x, y) && #[trigger] r(y, x) implies x
        == y by {
        lemma_leq_antisymmetric(x, y);
    }
    assert forall|x: Seq<u8>, y: Seq<u8>, z: Seq<u8>| #[trigger]
        r(x, y) && #[trigger] r(y, z) implies r(x, z) by {
        lemma_leq_transitive(x, y, z);
    }
    assert forall|x: Seq<u8>, y: Seq<u8>| #[trigger] r(x, y) || #[trigger] r(y, x) by {
        lemma_leq_total(x, y);
    }
}

fn in_order(a: &[u8; 32], b: &[u8; 32]) -> (r: bool)
    ensures
        r == bytes_leq(a@, b@),
{
    let mut i: usize = 0;
    proof {
        assert(a@.skip(0) =~= a@);
        assert(b@.skip(0) =~= b@);
    }
    while i < 32
        invariant
            i <= 32,
            bytes_leq(a@, b@) == bytes_leq(a@.skip(i as int), b@.skip(i as int)),
        decreases 32 - i,
    {
        proof {
            assert(a@.skip(i as int)[0] == a@[i as int]);
            assert(b@.skip(i as int)[0] == b@[i as int]);
            assert(a@.skip(i as int).drop_first() =~= a@.skip(i + 1));
            assert(b@.skip(i as int).drop_first() =~= b@.skip(i + 1));
        }
        if a[i] != b[i] {
            return a[i] < b[i];
        }
        i += 1;
    }
    true
}

/// Digests as byte strings.
pub open spec fn digest_bytes(v: Seq<[u8; 32]>) -> Seq<Seq<u8>> {
    v.map_values(|d: [u8; 32]| d@)
}

fn merge(a: Vec<[u8; 32]>, b: Vec<[u8; 32]>) -> (r: Vec<[u8; 32]>)
    requires
        sorted_by(digest_bytes(a@), byte_order()),
        sorted_by(digest_bytes(b@), byte_order()),
    ensures
        sorted_by(digest_bytes(r@), byte_order()),
        digest_bytes(r@).to_multiset() == digest_bytes(a@).to_multiset().add(
            digest_bytes(b@).to_multiset(),
        ),
{
    let ghost x = digest_bytes(a@);
    let ghost y = digest_bytes(b@);
    let ghost leq = byte_order();
    let mut r: Vec<[u8; 32]> = Vec::new();
    let mut i: usize = 0;
    let mut j: usize = 0;
    proof {
        assert(x.take(0) =~= seq![]);
        assert(y.take(0) =~= seq![]);
        assert(digest_bytes(r@) =~= seq![]);
        broadcast use vstd::seq_lib::group_to_multiset_ensures;

        assert(digest_bytes(r@).to_multiset() =~= x.take(0).to_multiset().add(
            y.take(0).to_multiset(),
        ));
    }
    while i < a.len() || j < b.len()
        invariant
            i <= a@.len(),
            j <= b@.len(),
            x == digest_bytes(a@),
            y == digest_bytes(b@),
            leq == byte_order(),
            sorted_by(x, leq),
            sorted_by(y, leq),
            sorted_by(digest_bytes(r@), leq),
            digest_bytes(r@).to_multiset() == x.take(i as int).to_multiset().add(
                y.take(j as int).to_multiset(),
            ),
            forall|k: int, l: int|
                0 <= k < r@.len() && i <= l < x.len() ==> #[trigger] leq(
                    digest_bytes(r@)[k],
                    x[l],
                ),
            forall|k: int, l: int|
                0 <= k < r@.len() && j <= l < y.len() ==> #[trigger] leq(
                    digest_bytes(r@)[k],
                    y[l],
                ),
        decreases a.len() - i + b.len() - j,
    {
        let ghost before = digest_bytes(r@);
        let first = j >= b.len() || (i < a.len() && in_order(&a[i], &b[j]));
        if first {
            let d = a[i];
            r.push(d);
            proof {
                let now = digest_bytes(r@);
                assert(now =~= before.push(x[i as int]));
                assert(x.take(i + 1) =~= x.take(i as int).push(x[i as int]));
                broadcast use vstd::seq_lib::group_to_multiset_ensures;

                assert(now.to_multiset() =~= x.take(i + 1).to_multiset().add(
                    y.take(j as int).to_multiset(),
                ));
                assert forall|l: int| j <= l < y.len() implies leq(x[i as int], #[trigger] y[l]) by {
                    assert(leq(x[i as int], y[j as int]));
                    if l > j {
                        assert(leq(y[j as int], y[l]));
                        lemma_leq_transitive(x[i as int], y[j as int], y[l]);
                    }
                }
            }
            i += 1;
        } else {
            let d = b[j];
            r.push(d);
            proof {
                let now = digest_bytes(r@);
                assert(now =~= before.push(y[j as int]));
                assert(y.take(j + 1) =~= y.take(j as int).push(y[j as int]));
                broadcast use vstd::seq_lib::group_to_multiset_ensures;

                assert(now.to_multiset() =~= x.take(i as int).to_multiset().add(
                    y.take(j + 1).to_multiset(),
                ));
                assert forall|l: int| i <= l < x.len() implies leq(y[j as int], #[trigger] x[l]) by {
                    lemma_leq_total(x[i as int], y[j as int]);
                    assert(leq(y[j as int], x[i as int]));
                    if l > i {
                        assert(leq(x[i as int], x[l]));
                        lemma_leq_transitive(y[j as int], x[i as int], x[l]);
                    }
                }
            }
            j += 1;
        }
    }
    proof {
        assert(x.take(i as int) =~= x);
        assert(y.take(j as int) =~= y);
    }
    r
}

/// Sorts digests in the dictionary order of their bytes.
pub fn sort_digests(v: &[[u8; 32]]) -> (r: Vec<[u8; 32]>)
    ensures
        digest_bytes(r@) == digest_bytes(v@).sort_by(byte_order()),
    decreases v@.len(),
{
    let ghost all = digest_bytes(v@);
    let n: usize = v.len();
    let mut r: Vec<[u8; 32]> = Vec::new();
    if n < 2 {
        if n == 1 {
            r.push(v[0]);
        }
        proof {
            assert(digest_bytes(r@) =~= all);
        }
    } else {
        let mid: usize = n / 2;
        let left = vstd::slice::slice_subrange(v, 0, mid);
        let right = vstd::slice::slice_subrange(v, mid, n);
        proof {
            lemma_byte_order();
            let a = digest_bytes(left@);
            let b = digest_bytes(right@);
            a.lemma_sort_by_ensures(byte_order());
            b.lemma_sort_by_ensures(byte_order());
            vstd::seq_lib::lemma_multiset_commutative(a, b);
            assert(a + b =~= all);
        }
        r = merge(sort_digests(left), sort_digests(right));
    }
    proof {
        lemma_byte_order();
        all.lemma_sort_by_ensures(byte_order());
        vstd::seq_lib::lemma_sorted_unique(
            digest_bytes(r@),
            all.sort_by(byte_order()),
            byte_order(),
        );
    }
    r
}

// ---------------------------------------------------------------------------------------
// One file
// ---------------------------------------------------------------------------------------
/// What is hashed of a file: its path, a zero byte, and its content.
pub open spec fn file_record(path: Seq<u8>, content: Seq<u8>) -> Seq<u8> {
    path + seq![0u8] + content
}

/// What is hashed of a symbolic link: its path, a one byte, and its target.
pub open spec fn link_record(path: Seq<u8>, target: Seq<u8>) -> Seq<u8> {
    path + seq![1u8] + target
}

/// The hash of one file or symbolic link. Its view is what has been hashed so far.
#[derive(Debug)]
pub struct EntryHash {
    hasher: blake3::Hasher,
}

impl View for EntryHash {
    type V = Seq<u8>;

    closed spec fn view(&self) -> Seq<u8> {
        hashed(self.hasher)
    }
}

impl EntryHash {
    /// Starts the hash of a file; its content is then added.
    pub fn file(path: &[u8]) -> (r: EntryHash)
        ensures
            r@ == file_record(path@, seq![]),
    {
        let mut hasher = new_hasher();
        feed(&mut hasher, path);
        feed(&mut hasher, &[0u8]);
        proof {
            assert(hashed(hasher) =~= file_record(path@, seq![]));
        }
        EntryHash { hasher }
    }

    /// Starts the hash of a symbolic link; its target is then added.
    pub fn link(path: &[u8]) -> (r: EntryHash)
        ensures
            r@ == link_record(path@, seq![]),
    {
        let mut hasher = new_hasher();
        feed(&mut hasher, path);
        feed(&mut hasher, &[1u8]);
        proof {
            assert(hashed(hasher) =~= link_record(path@, seq![]));
        }
        EntryHash { hasher }
    }

    /// Adds a piece of the content or of the target.
    pub fn update(&mut self, piece: &[u8])
        ensures
            final(self)@ == old(self)@ + piece@,
    {
        feed(&mut self.hasher, piece);
    }

    /// The digest of what has been hashed.
    pub fn digest(&self) -> (r: [u8; 32])
        ensures
            r@ == blake3_digest(self@),
    {
        digest(&self.hasher)
    }
}

/// A byte string without a zero byte, as every path is.
pub open spec fn zero_free(s: Seq<u8>) -> bool {
    forall|i: int| 0 <= i < s.len() ==> #[trigger] s[i] != 0
}

/// Pieces of content add up: hashing a file in pieces is hashing it at once.
pub proof fn law_pieces_add_up(path: Seq<u8>, a: Seq<u8>, b: Seq<u8>)
    ensures
        file_record(path, a) + b == file_record(path, a + b),
        link_record(path, a) + b == link_record(path, a + b),
{
    assert(file_record(path, a) + b =~= file_record(path, a + b));
    assert(link_record(path, a) + b =~= link_record(path, a + b));
}

/// Two files that differ in their path or in their content are hashed from different
/// bytes.
pub proof fn law_files_are_told_apart(p: Seq<u8>, c: Seq<u8>, q: Seq<u8>, d: Seq<u8>)
    requires
        zero_free(p),
        zero_free(q),
        p != q || c != d,
    ensures
        file_record(p, c) != file_record(q, d),
{
    let x = file_record(p, c);
    let y = file_record(q, d);
    if x == y {
        assert(x[p.len() as int] == 0);
        assert(y[q.len() as int] == 0);
        if p.len() < q.len() {
            assert(y[p.len() as int] == q[p.len() as int]);
        }
        if q.len() < p.len() {
            assert(x[q.len() as int] == p[q.len() as int]);
        }
        assert(p =~= x.take(p.len() as int));
        assert(q =~= y.take(q.len() as int));
        assert(c =~= x.skip(p.len() as int + 1));
        assert(d =~= y.skip(q.len() as int + 1));
    }
}

/// A file and a symbolic link are hashed from different bytes.
pub proof fn law_file_is_no_link(p: Seq<u8>, c: Seq<u8>, q: Seq<u8>, target: Seq<u8>)
    requires
        zero_free(q),
        zero_free(target),
    ensures
        file_record(p, c) != link_record(q, target),
{
    let x = file_record(p, c);
    let y = link_record(q, target);
    if x == y {
        let i = p.len() as int;
        assert(x.len() == i + 1 + c.len() && y.len() == q.len() + 1 + target.len());
        assert(x[i] == 0);
        if i < q.len() {
            assert(y[i] == q[i]);
        } else if i == q.len() {
            assert(y[i] == 1);
        } else {
            assert((q + seq![1u8]).len() == q.len() + 1);
            assert(y[i] == target[i - (q.len() + 1)]);
        }
    }
}

// ---------------------------------------------------------------------------------------
// All files of an instruction
// ---------------------------------------------------------------------------------------
/// Byte strings behind one another.
pub open spec fn chained(parts: Seq<Seq<u8>>) -> Seq<u8>
    decreases parts.len(),
{
    if parts.len() == 0 {
        seq![]
    } else {
        chained(parts.drop_last()) + parts.last()
    }
}

/// What the files of an instruction come to: how many there are, as eight bytes with the
/// lowest first, and their digests in order.
pub open spec fn contents_record(digests: Seq<Seq<u8>>) -> Seq<u8> {
    spec_u64_to_le_bytes(digests.len() as u64) + chained(digests.sort_by(byte_order()))
}

/// Adds the files of an instruction to a hash, given the digest of each. The order in
/// which the digests come is of no account.
pub(crate) fn hash_contents(digests: &[[u8; 32]], h: &mut blake3::Hasher)
    ensures
        hashed(*final(h)) == hashed(*old(h)) + contents_record(digest_bytes(digests@)),
{
    let ghost all = digest_bytes(digests@);
    let ghost start = hashed(*h);
    let count = u64_to_le_bytes(digests.len() as u64);
    feed(h, &count);
    let sorted = sort_digests(digests);
    let ghost parts = digest_bytes(sorted@);
    let mut i: usize = 0;
    proof {
        assert(parts.take(0) =~= seq![]);
        assert(hashed(*h) =~= start + count@ + chained(parts.take(0)));
    }
    while i < sorted.len()
        invariant
            i <= sorted@.len(),
            parts == digest_bytes(sorted@),
            hashed(*h) == start + count@ + chained(parts.take(i as int)),
        decreases sorted.len() - i,
    {
        feed(h, &sorted[i]);
        proof {
            let more = parts.take(i + 1);
            assert(more.drop_last() =~= parts.take(i as int));
            assert(more.last() == sorted@[i as int]@);
            assert(hashed(*h) =~= start + count@ + chained(more));
        }
        i += 1;
    }
    proof {
        assert(parts.take(i as int) =~= parts);
        assert(hashed(*h) =~= start + contents_record(all));
    }
}

/// What the files of an instruction come to does not depend on the order in which they
/// are visited.
pub proof fn law_order_of_files_is_of_no_account(a: Seq<Seq<u8>>, b: Seq<Seq<u8>>)
    requires
        a.to_multiset() == b.to_multiset(),
    ensures
        contents_record(a) == contents_record(b),
{
    broadcast use vstd::seq_lib::group_to_multiset_ensures;

    lemma_byte_order();
    a.lemma_sort_by_ensures(byte_order());
    b.lemma_sort_by_ensures(byte_order());
    vstd::seq_lib::lemma_sorted_unique(
        a.sort_by(byte_order()),
        b.sort_by(byte_order()),
        byte_order(),
    );
    assert(a.len() == a.to_multiset().len());
    assert(b.len() == b.to_multiset().len());
}

/// Where all digests have one length, instructions whose files have different digests are
/// hashed from different bytes.
pub proof fn law_contents_are_told_apart(a: Seq<Seq<u8>>, b: Seq<Seq<u8>>)
    requires
        a.len() <= u64::MAX,
        b.len() <= u64::MAX,
        forall|i: int| 0 <= i < a.len() ==> (#[trigger] a[i]).len() == 32,
        forall|i: int| 0 <= i < b.len() ==> (#[trigger] b[i]).len() == 32,
        a.to_multiset() != b.to_multiset(),
    ensures
        contents_record(a) != contents_record(b),
{
    broadcast use vstd::seq_lib::group_to_multiset_ensures;

    let leq = byte_order();
    let x = a.sort_by(leq);
    let y = b.sort_by(leq);
    lemma_byte_order();
    a.lemma_sort_by_ensures(leq);
    b.lemma_sort_by_ensures(leq);
    assert(x.len() == x.to_multiset().len());
    assert(y.len() == y.to_multiset().len());
    assert(a.len() == a.to_multiset().len());
    assert(b.len() == b.to_multiset().len());
    assert forall|i: int| 0 <= i < x.len() implies (#[trigger] x[i]).len() == 32 by {
        assert(x.contains(x[i]));
        assert(a.contains(x[i]));
    }
    assert forall|i: int| 0 <= i < y.len() implies (#[trigger] y[i]).len() == 32 by {
        assert(y.contains(y[i]));
        assert(b.contains(y[i]));
    }
    vstd::bytes::lemma_auto_spec_u64_to_from_le_bytes();
    let m = spec_u64_to_le_bytes(a.len() as u64);
    let n = spec_u64_to_le_bytes(b.len() as u64);
    if contents_record(a) == contents_record(b) {
        assert(m =~= contents_record(a).take(8));
        assert(n =~= contents_record(b).take(8));
        assert(a.len() == b.len());
        assert(chained(x) =~= contents_record(a).skip(8));
        assert(chained(y) =~= contents_record(b).skip(8));
        lemma_chained_injective(x, y);
    }
}

pub(crate) proof fn lemma_chained_len(a: Seq<Seq<u8>>)
    requires
        forall|i: int| 0 <= i < a.len() ==> (#[trigger] a[i]).len() == 32,
    ensures
        chained(a).len() == 32 * a.len(),
    decreases a.len(),
{
    if a.len() > 0 {
        lemma_chained_len(a.drop_last());
    }
}

pub(crate) proof fn lemma_chained_injective(a: Seq<Seq<u8>>, b: Seq<Seq<u8>>)
    requires
        a.len() == b.len(),
        forall|i: int| 0 <= i < a.len() ==> (#[trigger] a[i]).len() == 32,
        forall|i: int| 0 <= i < b.len() ==> (#[trigger] b[i]).len() == 32,
        chained(a) == chained(b),
    ensures
        a == b,
    decreases a.len(),
{
    if a.len() > 0 {
        lemma_chained_len(a.drop_last());
        lemma_chained_len(b.drop_last());
        let n = 32 * (a.len() - 1);
        assert(chained(a.drop_last()) =~= chained(a).take(n));
        assert(chained(b.drop_last()) =~= chained(b).take(n));
        assert(a.last() =~= chained(a).skip(n));
        assert(b.last() =~= chained(b).skip(n));
        lemma_chained_injective(a.drop_last(), b.drop_last());
        assert(a =~= a.drop_last().push(a.last()));
        assert(b =~= b.drop_last().push(b.last()));
    } else {
        assert(a =~= b);
    }
}

/// The order of byte strings goes by their first difference: one that starts another comes before
/// it, and otherwise the smaller byte at the first place where they differ decides.
pub proof fn law_order_of_bytes(a: Seq<u8>, x: u8, b: Seq<u8>, y: u8, c: Seq<u8>)
    requires
        x < y,
    ensures
        bytes_leq(a + seq![x] + b, a + seq![y] + c),
        !bytes_leq(a + seq![y] + c, a + seq![x] + b),
        bytes_leq(a, a + b),
    decreases a.len(),
{
    let s = a + seq![x] + b;
    let t = a + seq![y] + c;
    if a.len() > 0 {
        let r = a.drop_first();
        assert(s.drop_first() =~= r + seq![x] + b);
        assert(t.drop_first() =~= r + seq![y] + c);
        assert((a + b).drop_first() =~= r + b);
        law_order_of_bytes(r, x, b, y, c);
    }
}

/// The files of an instruction come to how many there are, in eight bytes, and their digests from
/// the smallest to the largest.
pub proof fn law_digests_are_put_in_order(digests: Seq<Seq<u8>>, sorted: Seq<Seq<u8>>)
    requires
        digests.len() <= u64::MAX,
        sorted.to_multiset() == digests.to_multiset(),
        forall|i: int, j: int|
            0 <= i < j < sorted.len() ==> bytes_leq(#[trigger] sorted[i], #[trigger] sorted[j]),
    ensures
        contents_record(digests) == spec_u64_to_le_bytes(digests.len() as u64) + sorted.fold_left(
            Seq::<u8>::empty(),
            |all: Seq<u8>, d: Seq<u8>| all + d,
        ),
{
    let leq = byte_order();
    let x = digests.sort_by(leq);
    lemma_byte_order();
    digests.lemma_sort_by_ensures(leq);
    assert(sorted_by(sorted, leq)) by {
        assert forall|i: int, j: int| 0 <= i < j < sorted.len() implies #[trigger] leq(
            sorted[i],
            sorted[j],
        ) by {
            assert(bytes_leq(sorted[i], sorted[j]));
        }
    }
    vstd::seq_lib::lemma_sorted_unique(x, sorted, leq);
    lemma_chained_is_fold(sorted);
}

proof fn lemma_chained_is_fold(parts: Seq<Seq<u8>>)
    ensures
        chained(parts) == parts.fold_left(
            Seq::<u8>::empty(),
            |all: Seq<u8>, d: Seq<u8>| all + d,
        ),
    decreases parts.len(),
{
    reveal(Seq::fold_left);
    if parts.len() > 0 {
        lemma_chained_is_fold(parts.drop_last());
    }
}

} // verus!
