//! Content-change detection: a deterministic fingerprint of an artist's
//! on-disk subtree, computed from the file names found beneath it (never from
//! file contents). Hidden names are skipped and the remaining names are
//! sorted before hashing, so the digest depends only on the multiset of
//! names, not on the order in which the filesystem yields them.

use vstd::prelude::*;

verus! {

use vstd::seq_lib::*;
use vstd::relations::{
    total_ordering, reflexive, antisymmetric, transitive, strongly_connected, sorted_by,
};
use vstd::multiset::Multiset;
use vstd::utf8::encode_utf8;
use crate::naming::{hidden_name, is_hidden, views_of};

// ---------- ordering file names ----------

/// Lexicographic order on character sequences, by scalar value.
pub open spec fn lex_le(a: Seq<char>, b: Seq<char>) -> bool
    decreases a.len(),
{
    if a.len() == 0 {
        true
    } else if b.len() == 0 {
        false
    } else if (a[0] as u32) < (b[0] as u32) {
        true
    } else if (a[0] as u32) > (b[0] as u32) {
        false
    } else {
        lex_le(a.drop_first(), b.drop_first())
    }
}

/// The order the fingerprint sorts names by.
pub open spec fn name_order() -> spec_fn(Seq<char>, Seq<char>) -> bool {
    |a: Seq<char>, b: Seq<char>| lex_le(a, b)
}

proof fn lemma_lex_le_refl(a: Seq<char>)
    ensures
        lex_le(a, a),
    decreases a.len(),
{
    if a.len() > 0 {
        lemma_lex_le_refl(a.drop_first());
    }
}

proof fn lemma_lex_le_conn(a: Seq<char>, b: Seq<char>)
    ensures
        lex_le(a, b) || lex_le(b, a),
    decreases a.len(),
{
    if a.len() > 0 && b.len() > 0 && (a[0] as u32) == (b[0] as u32) {
        lemma_lex_le_conn(a.drop_first(), b.drop_first());
    }
}

proof fn lemma_lex_le_antisym(a: Seq<char>, b: Seq<char>)
    requires
        lex_le(a, b),
        lex_le(b, a),
    ensures
        a == b,
    decreases a.len(),
{
    if a.len() == 0 {
        assert(b.len() == 0);
        assert(a =~= b);
    } else {
        assert(b.len() > 0);
        lemma_lex_le_antisym(a.drop_first(), b.drop_first());
        assert((a[0] as u32) == (b[0] as u32));
        vstd::utf8::char_u32_cast(a[0], a[0] as u32);
        vstd::utf8::char_u32_cast(b[0], b[0] as u32);
        assert(a[0] == b[0]);
        assert(a.drop_first().len() == a.len() - 1);
        assert(b.drop_first().len() == b.len() - 1);
        assert(a.len() == b.len());
        assert forall|i: int| 0 <= i < a.len() implies a[i] == b[i] by {
            if i > 0 {
                assert(a[i] == a.drop_first()[i - 1]);
                assert(b[i] == b.drop_first()[i - 1]);
            }
        }
        assert(a =~= b);
    }
}

proof fn lemma_lex_le_trans(a: Seq<char>, b: Seq<char>, c: Seq<char>)
    requires
        lex_le(a, b),
        lex_le(b, c),
    ensures
        lex_le(a, c),
    decreases a.len(),
{
    if a.len() > 0 && b.len() > 0 && c.len() > 0 {
        if (a[0] as u32) == (b[0] as u32) && (b[0] as u32) == (c[0] as u32) {
            lemma_lex_le_trans(a.drop_first(), b.drop_first(), c.drop_first());
        }
    }
}

/// The fingerprint's name order is a total order, so every multiset of names
/// has exactly one sorted arrangement.
pub proof fn lemma_name_order_total()
    ensures
        total_ordering(name_order()),
{
    let r = name_order();
    assert forall|x: Seq<char>| #[trigger] r(x, x) by {
        lemma_lex_le_refl(x);
    }
    assert(reflexive(r));
    assert forall|x: Seq<char>, y: Seq<char>| #[trigger] r(x, y) && #[trigger] r(y, x) implies x
        == y by {
        lemma_lex_le_antisym(x, y);
    }
    assert(antisymmetric(r));
    assert forall|x: Seq<char>, y: Seq<char>, z: Seq<char>|
        #[trigger] r(x, y) && #[trigger] r(y, z) implies r(x, z) by {
        lemma_lex_le_trans(x, y, z);
    }
    assert(transitive(r));
    assert forall|x: Seq<char>, y: Seq<char>| #[trigger] r(x, y) || #[trigger] r(y, x) by {
        lemma_lex_le_conn(x, y);
    }
    assert(strongly_connected(r));
}

proof fn lemma_lex_le_skip(a: Seq<char>, b: Seq<char>, i: int)
    requires
        0 <= i <= a.len(),
        i <= b.len(),
        forall|j: int| 0 <= j < i ==> a[j] == b[j],
    ensures
        lex_le(a, b) == lex_le(a.skip(i), b.skip(i)),
    decreases i,
{
    if i > 0 {
        assert(a[0] == b[0]);
        let a1 = a.drop_first();
        let b1 = b.drop_first();
        assert(forall|j: int| 0 <= j < i - 1 ==> a1[j] == b1[j]);
        lemma_lex_le_skip(a1, b1, i - 1);
        assert(a1.skip(i - 1) =~= a.skip(i));
        assert(b1.skip(i - 1) =~= b.skip(i));
    } else {
        assert(a.skip(0) =~= a);
        assert(b.skip(0) =~= b);
    }
}

/// Executable comparison deciding `lex_le` on the two strings' characters.
pub fn str_le(a: &str, b: &str) -> (r: bool)
    ensures
        r == lex_le(a@, b@),
{
    let na = a.unicode_len();
    let nb = b.unicode_len();
    let mut i: usize = 0;
    while i < na && i < nb
        invariant
            0 <= i <= na,
            i <= nb,
            na == a@.len(),
            nb == b@.len(),
            forall|j: int| 0 <= j < i ==> a@[j] == b@[j],
        decreases na - i,
    {
        let ca = a.get_char(i);
        let cb = b.get_char(i);
        if (ca as u32) < (cb as u32) {
            proof {
                lemma_lex_le_skip(a@, b@, i as int);
            }
            return true;
        }
        if (ca as u32) > (cb as u32) {
            proof {
                lemma_lex_le_skip(a@, b@, i as int);
            }
            return false;
        }
        i = i + 1;
    }
    proof {
        lemma_lex_le_skip(a@, b@, i as int);
    }
    na <= nb
}

// ---------- sorting ----------

proof fn lemma_views_of_push(s: Seq<String>, x: String)
    ensures
        views_of(s.push(x)) =~= views_of(s).push(x@),
{
}

/// Insert one name into a sorted vector of names, keeping it sorted.
fn insert_sorted(r: &Vec<String>, x: String) -> (out: Vec<String>)
    requires
        sorted_by(views_of(r@), name_order()),
    ensures
        sorted_by(views_of(out@), name_order()),
        views_of(out@).to_multiset() == views_of(r@).to_multiset().insert(x@),
{
    broadcast use vstd::seq_lib::group_to_multiset_ensures;
    broadcast use vstd::multiset::group_multiset_axioms;

    let n = r.len();
    let mut out: Vec<String> = Vec::new();
    let mut k: usize = 0;
    while k < n && str_le(&r[k], x.as_str())
        invariant
            0 <= k <= n,
            n == r@.len(),
            sorted_by(views_of(r@), name_order()),
            views_of(out@) =~= views_of(r@).take(k as int),
            forall|m: int| 0 <= m < k ==> lex_le(#[trigger] views_of(r@)[m], x@),
        decreases n - k,
    {
        let e = r[k].clone();
        proof {
            lemma_views_of_push(out@, e);
            assert(views_of(out@).push(e@) =~= views_of(r@).take(k + 1));
        }
        out.push(e);
        k = k + 1;
    }
    let ghost p = k as int;
    let ghost xv = x@;
    proof {
        if k < n {
            lemma_lex_le_conn(views_of(r@)[p], xv);
            assert(lex_le(xv, views_of(r@)[p]));
        }
    }
    proof {
        lemma_views_of_push(out@, x);
    }
    out.push(x);
    proof {
        assert(views_of(out@) =~= views_of(r@).take(p) + seq![xv] + views_of(r@).subrange(p, p));
    }
    let mut k2: usize = k;
    while k2 < n
        invariant
            0 <= p <= k2 <= n,
            n == r@.len(),
            views_of(out@) =~= views_of(r@).take(p) + seq![xv] + views_of(r@).subrange(
                p,
                k2 as int,
            ),
        decreases n - k2,
    {
        let e = r[k2].clone();
        proof {
            lemma_views_of_push(out@, e);
            assert(e@ == views_of(r@)[k2 as int]);
            let vs = views_of(r@);
            let tt = vs.take(p) + seq![xv] + vs.subrange(p, k2 as int);
            assert(vs.len() == n);
            assert(vs.take(p).len() == p);
            assert(seq![xv].len() == 1);
            assert(vs.subrange(p, k2 as int).len() == k2 - p);
            assert(views_of(out@) == tt);
            assert forall|m: int| 0 <= m < tt.len() + 1 implies (tt.push(e@))[m] == (vs.take(p)
                + seq![xv] + vs.subrange(p, k2 + 1))[m] by {
                assert(tt.len() == k2 + 1);
                if m < p {
                    assert((tt.push(e@))[m] == vs[m]);
                } else if m > p {
                    assert((tt.push(e@))[m] == vs[m - 1]);
                }
            }
            assert(tt.push(e@) =~= vs.take(p) + seq![xv] + vs.subrange(p, k2 + 1));
        }
        out.push(e);
        k2 = k2 + 1;
    }
    proof {
        let vs = views_of(r@);
        let ov = views_of(out@);
        assert(ov =~= vs.take(p) + seq![xv] + vs.subrange(p, n as int));
        // The multiset: each concatenation piece contributes its own multiset.
        lemma_multiset_commutative(vs.take(p) + seq![xv], vs.subrange(p, n as int));
        lemma_multiset_commutative(vs.take(p), seq![xv]);
        lemma_multiset_commutative(vs.take(p), vs.subrange(p, n as int));
        assert(vs.take(p) + vs.subrange(p, n as int) =~= vs);
        assert(seq![xv] =~= Seq::<Seq<char>>::empty().push(xv));
        to_multiset_build(Seq::<Seq<char>>::empty(), xv);
        assert(Seq::<Seq<char>>::empty().to_multiset() =~= Multiset::<Seq<char>>::empty());
        assert(seq![xv].to_multiset() =~= Multiset::<Seq<char>>::empty().insert(xv));
        assert(ov.to_multiset() =~= vs.to_multiset().insert(xv));
        // Sortedness: every element of the prefix precedes `x`, which
        // precedes every element of the suffix.
        assert forall|i: int, j: int| 0 <= i < j < ov.len() implies #[trigger] name_order()(
            ov[i],
            ov[j],
        ) by {
            if i < p && j < p {
                assert(name_order()(vs[i], vs[j]));
            } else if i < p && j == p {
                assert(lex_le(vs[i], xv));
            } else if i < p && j > p {
                assert(name_order()(vs[i], vs[j - 1]));
            } else if i == p && j > p {
                assert(lex_le(xv, vs[p]));
                if j - 1 > p {
                    assert(name_order()(vs[p], vs[j - 1]));
                    lemma_lex_le_trans(xv, vs[p], vs[j - 1]);
                }
            } else {
                assert(name_order()(vs[i - 1], vs[j - 1]));
            }
        }
        assert(sorted_by(ov, name_order()));
    }
    out
}

/// Sort names into the unique `name_order()` arrangement.
fn sort_names(v: &Vec<String>) -> (r: Vec<String>)
    ensures
        views_of(r@) == views_of(v@).sort_by(name_order()),
{
    broadcast use vstd::seq_lib::group_to_multiset_ensures;
    broadcast use vstd::multiset::group_multiset_axioms;

    let n = v.len();
    let mut out: Vec<String> = Vec::new();
    proof {
        assert(views_of(out@) =~= Seq::<Seq<char>>::empty());
        assert(views_of(v@).take(0) =~= Seq::<Seq<char>>::empty());
        assert(views_of(out@).to_multiset() =~= views_of(v@).take(0).to_multiset());
    }
    let mut k: usize = 0;
    while k < n
        invariant
            0 <= k <= n,
            n == v@.len(),
            sorted_by(views_of(out@), name_order()),
            views_of(out@).to_multiset() == views_of(v@).take(k as int).to_multiset(),
        decreases n - k,
    {
        let e = v[k].clone();
        proof {
            assert(views_of(v@).take(k + 1) =~= views_of(v@).take(k as int).push(e@));
            to_multiset_build(views_of(v@).take(k as int), e@);
            assert(views_of(v@).take(k + 1).to_multiset() =~= views_of(v@).take(
                k as int,
            ).to_multiset().insert(e@));
        }
        let next = insert_sorted(&out, e);
        out = next;
        k = k + 1;
    }
    proof {
        let vs = views_of(v@);
        assert(vs.take(n as int) =~= vs);
        lemma_name_order_total();
        vs.lemma_sort_by_ensures(name_order());
        lemma_sorted_unique(views_of(out@), vs.sort_by(name_order()), name_order());
    }
    out
}

// ---------- the digest ----------

/// The digest blake3 assigns to a byte string, rendered as lowercase hex.
pub uninterp spec fn blake3_hex(bytes: Seq<u8>) -> Seq<char>;

/// Relies on `blake3::Hasher::update` / `Hash::to_hex`: the digest is a
/// function of the hashed bytes alone, rendered as 64 hexadecimal characters.
#[verifier::external_body]
fn blake3_hex_digest(bytes: &Vec<u8>) -> (r: String)
    ensures
        r@ == blake3_hex(bytes@),
        r@.len() == 64,
{
    let mut hasher = blake3::Hasher::new();
    hasher.update(bytes.as_slice());
    hasher.finalize().to_hex().as_str().to_string()
}

/// The UTF-8 bytes of a sequence of names, concatenated in order.
pub open spec fn utf8_concat(names: Seq<Seq<char>>) -> Seq<u8>
    decreases names.len(),
{
    if names.len() == 0 {
        Seq::<u8>::empty()
    } else {
        utf8_concat(names.drop_last()) + encode_utf8(names.last())
    }
}

/// A name the fingerprint takes into account: any non-hidden file name.
pub open spec fn visible(n: Seq<char>) -> bool {
    !hidden_name(n)
}

/// The fingerprint of a subtree that contains exactly `names` as the file
/// names beneath it: blake3 over the UTF-8 bytes of the non-hidden names in
/// sorted order.
pub open spec fn fingerprint_of(names: Seq<Seq<char>>) -> Seq<char> {
    blake3_hex(utf8_concat(names.filter(|n: Seq<char>| visible(n)).sort_by(name_order())))
}

/// Compute the fingerprint of an artist subtree from the file names found
/// beneath it (in any traversal order, hidden names included; they are
/// skipped here).
pub fn fingerprint(names: &Vec<String>) -> (r: String)
    ensures
        r@ == fingerprint_of(views_of(names@)),
{
    broadcast use vstd::seq_lib::group_to_multiset_ensures;

    let n = names.len();
    let mut vis: Vec<String> = Vec::new();
    proof {
        reveal(Seq::filter);
        assert(views_of(names@).take(0) =~= Seq::<Seq<char>>::empty());
        assert(views_of(vis@) =~= views_of(names@).take(0).filter(|x: Seq<char>| visible(x)));
    }
    let mut k: usize = 0;
    while k < n
        invariant
            0 <= k <= n,
            n == names@.len(),
            views_of(vis@) == views_of(names@).take(k as int).filter(|x: Seq<char>| visible(x)),
        decreases n - k,
    {
        let ghost pre = views_of(names@).take(k as int);
        let ghost cur = views_of(names@).take(k + 1);
        proof {
            reveal(Seq::filter);
            assert(cur.drop_last() =~= pre);
            assert(cur.last() == names@[k as int]@);
        }
        if !is_hidden(names[k].as_str()) {
            let e = names[k].clone();
            proof {
                lemma_views_of_push(vis@, e);
                assert(views_of(vis@).push(e@) =~= cur.filter(|x: Seq<char>| visible(x)));
            }
            vis.push(e);
        }
        k = k + 1;
    }
    proof {
        assert(views_of(names@).take(n as int) =~= views_of(names@));
    }
    let sorted = sort_names(&vis);
    let sn = sorted.len();
    let mut bytes: Vec<u8> = Vec::new();
    proof {
        assert(views_of(sorted@).take(0) =~= Seq::<Seq<char>>::empty());
        assert(bytes@ =~= utf8_concat(views_of(sorted@).take(0)));
    }
    let mut k2: usize = 0;
    while k2 < sn
        invariant
            0 <= k2 <= sn,
            sn == sorted@.len(),
            bytes@ == utf8_concat(views_of(sorted@).take(k2 as int)),
        decreases sn - k2,
    {
        let mut piece = sorted[k2].as_str().as_bytes_vec();
        proof {
            let ghost pre = views_of(sorted@).take(k2 as int);
            let ghost cur = views_of(sorted@).take(k2 + 1);
            assert(cur.drop_last() =~= pre);
            assert(cur.last() == sorted@[k2 as int]@);
            assert(utf8_concat(cur) == utf8_concat(pre) + encode_utf8(cur.last()));
        }
        bytes.append(&mut piece);
        k2 = k2 + 1;
    }
    proof {
        assert(views_of(sorted@).take(sn as int) =~= views_of(sorted@));
    }
    blake3_hex_digest(&bytes)
}

// ---------- stability ----------

proof fn lemma_filter_multiset(s: Seq<Seq<char>>, pred: spec_fn(Seq<char>) -> bool)
    ensures
        s.filter(pred).to_multiset() == s.to_multiset().filter(pred),
    decreases s.len(),
{
    broadcast use vstd::seq_lib::group_to_multiset_ensures;
    broadcast use vstd::multiset::group_multiset_axioms;

    reveal(Seq::filter);
    if s.len() == 0 {
        assert(s.filter(pred).to_multiset() =~= s.to_multiset().filter(pred));
    } else {
        let t = s.drop_last();
        lemma_filter_multiset(t, pred);
        assert(t.push(s.last()) =~= s);
        assert(s.to_multiset() =~= t.to_multiset().insert(s.last()));
        if pred(s.last()) {
            assert(s.filter(pred) == t.filter(pred).push(s.last()));
            assert(s.filter(pred).to_multiset() =~= t.filter(pred).to_multiset().insert(
                s.last(),
            ));
            assert(s.to_multiset().filter(pred) =~= t.to_multiset().filter(pred).insert(
                s.last(),
            ));
        } else {
            assert(s.filter(pred) == t.filter(pred));
            assert(s.to_multiset().filter(pred) =~= t.to_multiset().filter(pred));
        }
    }
}

/// Hidden names never feed the digest: enumerating one more hidden file
/// leaves the fingerprint as it was.
pub proof fn lemma_fingerprint_ignores_hidden(names: Seq<Seq<char>>, h: Seq<char>)
    requires
        hidden_name(h),
    ensures
        fingerprint_of(names.push(h)) == fingerprint_of(names),
{
    reveal(Seq::filter);
    let pred = |n: Seq<char>| visible(n);
    assert(names.push(h).drop_last() =~= names);
    assert(names.push(h).last() == h);
    assert(names.push(h).filter(pred) == names.filter(pred));
}

/// Fingerprint stability under traversal order: two enumerations of the same
/// file-name multiset fingerprint identically, however the filesystem
/// ordered them.
pub proof fn lemma_fingerprint_permutation(names1: Seq<Seq<char>>, names2: Seq<Seq<char>>)
    requires
        names1.to_multiset() == names2.to_multiset(),
    ensures
        fingerprint_of(names1) == fingerprint_of(names2),
{
    let pred = |n: Seq<char>| visible(n);
    let f1 = names1.filter(pred);
    let f2 = names2.filter(pred);
    lemma_filter_multiset(names1, pred);
    lemma_filter_multiset(names2, pred);
    assert(f1.to_multiset() == f2.to_multiset());
    lemma_name_order_total();
    f1.lemma_sort_by_ensures(name_order());
    f2.lemma_sort_by_ensures(name_order());
    lemma_sorted_unique(f1.sort_by(name_order()), f2.sort_by(name_order()), name_order());
}

} // verus!
