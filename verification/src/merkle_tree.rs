//! The tree representation and its balanced incremental insertion.

use std::rc::Rc;
use vstd::prelude::*;
use crate::hashing::{Hasher, HashInput};

verus! {

/// A leaf node: one item together with the digest of its byte view.
pub struct MerkleLeaf<T> {
    pub data: T,
    pub hash: Vec<u8>,
}

/// An internal node: two ordered children, a combined digest, and the
/// number of leaves reachable beneath this node.
pub struct MerkleNode<T> {
    pub primary: Rc<MerkleKnot<T>>,
    pub secondary: Rc<MerkleKnot<T>>,
    pub hash: Vec<u8>,
    pub items_count: usize,
}

/// A node of the tree: empty, a leaf, or an internal node.
pub enum MerkleKnot<T> {
    Leaf(MerkleLeaf<T>),
    Node(MerkleNode<T>),
    Nil,
}

/// The mathematical shape of a knot: item byte sequences and digest byte
/// sequences, free of ownership and sharing concerns.
#[verifier::ext_equal]
pub enum KnotModel {
    Nil,
    Leaf { data: Seq<u8>, hash: Seq<u8> },
    Node { primary: Box<KnotModel>, secondary: Box<KnotModel>, hash: Seq<u8>, count: nat },
}

impl KnotModel {
    /// The leaf count a node itself records: 0 for `Nil`, 1 for a leaf,
    /// and the stored `count` field of an internal node.
    pub open spec fn stored_count(self) -> nat {
        match self {
            KnotModel::Nil => 0,
            KnotModel::Leaf { .. } => 1,
            KnotModel::Node { count, .. } => count,
        }
    }

    /// The number of leaves actually reachable beneath this node.
    pub open spec fn leaf_count(self) -> nat
        decreases self,
    {
        match self {
            KnotModel::Nil => 0,
            KnotModel::Leaf { .. } => 1,
            KnotModel::Node { primary, secondary, .. } =>
                primary.leaf_count() + secondary.leaf_count(),
        }
    }

    /// The digest this node carries; the empty sequence for `Nil`.
    pub open spec fn digest(self) -> Seq<u8> {
        match self {
            KnotModel::Nil => Seq::empty(),
            KnotModel::Leaf { hash, .. } => hash,
            KnotModel::Node { hash, .. } => hash,
        }
    }

    /// Well-formedness under a given hash function: a leaf's digest is the
    /// hash of its item's bytes, an internal node has two non-`Nil`
    /// children, records exactly the number of leaves beneath it, and
    /// carries the hash of its children's digests concatenated.
    pub open spec fn wf<H: Hasher>(self, h: H) -> bool
        decreases self,
    {
        match self {
            KnotModel::Nil => true,
            KnotModel::Leaf { data, hash } => hash == h.hash_spec(data),
            KnotModel::Node { primary, secondary, hash, count } => {
                &&& !(*primary is Nil)
                &&& !(*secondary is Nil)
                &&& count == primary.leaf_count() + secondary.leaf_count()
                &&& hash == h.hash_spec(primary.digest() + secondary.digest())
                &&& primary.wf(h)
                &&& secondary.wf(h)
            },
        }
    }
}

/// The model of a fresh leaf holding `data`.
pub open spec fn leaf_model<H: Hasher>(data: Seq<u8>, h: H) -> KnotModel {
    KnotModel::Leaf { data: data, hash: h.hash_spec(data) }
}

/// The model of an internal node over the given children: its digest is
/// the hash of the two child digests concatenated, its count the sum of
/// the counts the children record.
pub open spec fn combine_model<H: Hasher>(p: KnotModel, s: KnotModel, h: H) -> KnotModel {
    KnotModel::Node {
        primary: Box::new(p),
        secondary: Box::new(s),
        hash: h.hash_spec(p.digest() + s.digest()),
        count: p.stored_count() + s.stored_count(),
    }
}

/// Balanced incremental insertion, on models. At an internal node the
/// less-loaded child is descended into, ties favoring the primary child;
/// a `Nil` becomes a leaf and a leaf becomes an internal node over the
/// old and the new leaf. Every node on the descent path is rebuilt;
/// every node off it is kept as it stands.
pub open spec fn spec_insert<H: Hasher>(k: KnotModel, data: Seq<u8>, h: H) -> KnotModel
    decreases k,
{
    match k {
        KnotModel::Nil => leaf_model(data, h),
        KnotModel::Leaf { data: d0, hash: h0 } => combine_model(
            KnotModel::Leaf { data: d0, hash: h0 },
            leaf_model(data, h),
            h,
        ),
        KnotModel::Node { primary, secondary, .. } => {
            if primary.stored_count() <= secondary.stored_count() {
                combine_model(spec_insert(*primary, data, h), *secondary, h)
            } else {
                combine_model(*primary, spec_insert(*secondary, data, h), h)
            }
        },
    }
}

/// Of a well-formed node, the count it records is the number of leaves
/// actually beneath it.
pub proof fn lemma_wf_stored_count<H: Hasher>(k: KnotModel, h: H)
    requires
        k.wf(h),
    ensures
        k.stored_count() == k.leaf_count(),
{
}

/// Insertion preserves well-formedness, adds exactly one leaf, and never
/// leaves the tree empty.
pub proof fn lemma_spec_insert_wf<H: Hasher>(k: KnotModel, data: Seq<u8>, h: H)
    requires
        k.wf(h),
    ensures
        spec_insert(k, data, h).wf(h),
        spec_insert(k, data, h).leaf_count() == k.leaf_count() + 1,
        spec_insert(k, data, h).stored_count() == k.stored_count() + 1,
        !(spec_insert(k, data, h) is Nil),
    decreases k,
{
    match k {
        KnotModel::Nil => {},
        KnotModel::Leaf { data: d0, hash: h0 } => {
            let old_leaf = KnotModel::Leaf { data: d0, hash: h0 };
            let new_leaf = leaf_model(data, h);
            assert(old_leaf.leaf_count() == 1);
            assert(new_leaf.leaf_count() == 1);
            assert(new_leaf.wf(h));
            assert(combine_model(old_leaf, new_leaf, h).wf(h));
        },
        KnotModel::Node { primary, secondary, .. } => {
            lemma_wf_stored_count(*primary, h);
            lemma_wf_stored_count(*secondary, h);
            if primary.stored_count() <= secondary.stored_count() {
                lemma_spec_insert_wf(*primary, data, h);
                assert(combine_model(spec_insert(*primary, data, h), *secondary, h).wf(h));
            } else {
                lemma_spec_insert_wf(*secondary, data, h);
                assert(combine_model(*primary, spec_insert(*secondary, data, h), h).wf(h));
            }
        },
    }
}

/// Inserting the items of a sequence in order, starting from `k`.
pub open spec fn spec_insert_all<H: Hasher>(k: KnotModel, items: Seq<Seq<u8>>, h: H) -> KnotModel
    decreases items.len(),
{
    if items.len() == 0 {
        k
    } else {
        spec_insert_all(spec_insert(k, items[0], h), items.drop_first(), h)
    }
}

/// Inserting a sequence of items preserves well-formedness and adds one
/// leaf per item.
pub proof fn lemma_insert_all_wf<H: Hasher>(k: KnotModel, items: Seq<Seq<u8>>, h: H)
    requires
        k.wf(h),
    ensures
        spec_insert_all(k, items, h).wf(h),
        spec_insert_all(k, items, h).leaf_count() == k.leaf_count() + items.len(),
    decreases items.len(),
{
    if items.len() > 0 {
        lemma_spec_insert_wf(k, items[0], h);
        lemma_insert_all_wf(spec_insert(k, items[0], h), items.drop_first(), h);
    }
}

/// Law: after any sequence of N items is inserted in order into an empty
/// tree, the tree is well-formed and its leaf count is N.
pub proof fn lemma_leaf_count_after_inserts<H: Hasher>(items: Seq<Seq<u8>>, h: H)
    ensures
        spec_insert_all(KnotModel::Nil, items, h).wf(h),
        spec_insert_all(KnotModel::Nil, items, h).leaf_count() == items.len(),
{
    lemma_insert_all_wf(KnotModel::Nil, items, h);
}

impl KnotModel {
    /// Every internal node beneath and including this one records exactly
    /// the number of leaves reachable beneath it.
    pub open spec fn counts_consistent(self) -> bool
        decreases self,
    {
        match self {
            KnotModel::Nil => true,
            KnotModel::Leaf { .. } => true,
            KnotModel::Node { primary, secondary, count, .. } => {
                &&& count == primary.leaf_count() + secondary.leaf_count()
                &&& primary.counts_consistent()
                &&& secondary.counts_consistent()
            },
        }
    }
}

/// Law: in a well-formed tree — in particular in any tree grown from
/// empty by insertions — every internal node's recorded count equals the
/// number of leaves actually beneath it.
pub proof fn lemma_wf_counts_consistent<H: Hasher>(k: KnotModel, h: H)
    requires
        k.wf(h),
    ensures
        k.counts_consistent(),
    decreases k,
{
    match k {
        KnotModel::Nil => {},
        KnotModel::Leaf { .. } => {},
        KnotModel::Node { primary, secondary, .. } => {
            lemma_wf_counts_consistent(*primary, h);
            lemma_wf_counts_consistent(*secondary, h);
        },
    }
}

/// One insertion depends on the hashing capability only through the
/// function it computes: capabilities that hash every byte sequence
/// alike build the same tree.
pub proof fn lemma_insert_deterministic<H1: Hasher, H2: Hasher>(
    k: KnotModel,
    data: Seq<u8>,
    h1: H1,
    h2: H2,
)
    requires
        forall|s: Seq<u8>| #[trigger] h1.hash_spec(s) == h2.hash_spec(s),
    ensures
        spec_insert(k, data, h1) == spec_insert(k, data, h2),
    decreases k,
{
    match k {
        KnotModel::Nil => {
            assert(leaf_model(data, h1) =~= leaf_model(data, h2));
        },
        KnotModel::Leaf { data: d0, hash: h0 } => {
            let old_leaf = KnotModel::Leaf { data: d0, hash: h0 };
            assert(leaf_model(data, h1) =~= leaf_model(data, h2));
            assert(combine_model(old_leaf, leaf_model(data, h1), h1) =~= combine_model(
                old_leaf,
                leaf_model(data, h2),
                h2,
            ));
        },
        KnotModel::Node { primary, secondary, .. } => {
            if primary.stored_count() <= secondary.stored_count() {
                lemma_insert_deterministic(*primary, data, h1, h2);
                assert(combine_model(spec_insert(*primary, data, h1), *secondary, h1)
                    =~= combine_model(spec_insert(*primary, data, h2), *secondary, h2));
            } else {
                lemma_insert_deterministic(*secondary, data, h1, h2);
                assert(combine_model(*primary, spec_insert(*secondary, data, h1), h1)
                    =~= combine_model(*primary, spec_insert(*secondary, data, h2), h2));
            }
        },
    }
}

/// Law: insertion is deterministic. Two trees grown from the same
/// starting shape by the same ordered items, under hashing capabilities
/// that agree on every byte sequence, are identical — in particular they
/// carry the same root digest.
pub proof fn lemma_insert_all_deterministic<H1: Hasher, H2: Hasher>(
    k: KnotModel,
    items: Seq<Seq<u8>>,
    h1: H1,
    h2: H2,
)
    requires
        forall|s: Seq<u8>| #[trigger] h1.hash_spec(s) == h2.hash_spec(s),
    ensures
        spec_insert_all(k, items, h1) == spec_insert_all(k, items, h2),
        spec_insert_all(k, items, h1).digest() == spec_insert_all(k, items, h2).digest(),
    decreases items.len(),
{
    if items.len() > 0 {
        lemma_insert_deterministic(k, items[0], h1, h2);
        lemma_insert_all_deterministic(spec_insert(k, items[0], h1), items.drop_first(), h1, h2);
    }
}

/// Law: everything off the insertion path is kept as it stands. At an
/// internal node, one insertion replaces only the chosen child; the
/// sibling of the new tree is the very subtree the old tree held there.
pub proof fn lemma_untouched_child_kept<H: Hasher>(k: KnotModel, data: Seq<u8>, h: H)
    requires
        k is Node,
    ensures
        match (k, spec_insert(k, data, h)) {
            (
                KnotModel::Node { primary: p0, secondary: s0, .. },
                KnotModel::Node { primary: p1, secondary: s1, .. },
            ) => {
                if p0.stored_count() <= s0.stored_count() {
                    s1 == s0 && p1 == Box::new(spec_insert(*p0, data, h))
                } else {
                    p1 == p0 && s1 == Box::new(spec_insert(*s0, data, h))
                }
            },
            _ => false,
        },
{
}

/// Law: tree shape follows insertion order, not the final item multiset.
/// Two distinct items inserted into empty trees in the two possible
/// orders give different trees — so their root digests may differ, and
/// that difference is expected behavior, not a defect.
pub proof fn lemma_order_sensitive<H: Hasher>(a: Seq<u8>, b: Seq<u8>, h: H)
    requires
        a != b,
    ensures
        spec_insert_all(KnotModel::Nil, seq![a, b], h) != spec_insert_all(
            KnotModel::Nil,
            seq![b, a],
            h,
        ),
{
    reveal_with_fuel(spec_insert_all, 3);
    let ab = seq![a, b];
    let ba = seq![b, a];
    assert(ab.drop_first() =~= seq![b]);
    assert(ba.drop_first() =~= seq![a]);
    assert(seq![b].drop_first() =~= Seq::<Seq<u8>>::empty());
    assert(seq![a].drop_first() =~= Seq::<Seq<u8>>::empty());
    let t_ab = spec_insert_all(KnotModel::Nil, ab, h);
    let t_ba = spec_insert_all(KnotModel::Nil, ba, h);
    assert(t_ab == combine_model(leaf_model(a, h), leaf_model(b, h), h));
    assert(t_ba == combine_model(leaf_model(b, h), leaf_model(a, h), h));
}

impl<T: HashInput> MerkleKnot<T> {
    /// The abstract shape of this knot.
    pub open spec fn model(self) -> KnotModel
        decreases self,
    {
        match self {
            MerkleKnot::Nil => KnotModel::Nil,
            MerkleKnot::Leaf(leaf) => KnotModel::Leaf { data: leaf.data.bytes(), hash: leaf.hash@ },
            MerkleKnot::Node(node) => node.model(),
        }
    }
}

impl<T: HashInput> View for MerkleKnot<T> {
    type V = KnotModel;

    open spec fn view(&self) -> KnotModel {
        (*self).model()
    }
}

impl<T: HashInput> MerkleNode<T> {
    /// The abstract shape of this internal node.
    pub open spec fn model(self) -> KnotModel
        decreases self,
    {
        KnotModel::Node {
            primary: Box::new((*self.primary).model()),
            secondary: Box::new((*self.secondary).model()),
            hash: self.hash@,
            count: self.items_count as nat,
        }
    }
}

/// Relies on Rc::clone: the returned handle refers to the same underlying
/// node as the argument, so the value seen through it is the same.
#[verifier::external_body]
fn rc_share<T>(v: &Rc<T>) -> (r: Rc<T>)
    ensures
        r == *v,
{
    Rc::clone(v)
}

/// Copies a byte vector.
fn copy_bytes(v: &Vec<u8>) -> (r: Vec<u8>)
    ensures
        r@ == v@,
{
    let mut r: Vec<u8> = Vec::new();
    let mut i: usize = 0;
    while i < v.len()
        invariant
            i <= v.len(),
            r@ == v@.subrange(0, i as int),
        decreases v.len() - i,
    {
        r.push(v[i]);
        proof {
            assert(v@.subrange(0, i + 1 as int) =~= v@.subrange(0, i as int).push(v@[i as int]));
        }
        i += 1;
    }
    proof {
        assert(r@ =~= v@);
    }
    r
}

/// The digest of an internal node over two child digests: the hash of
/// their concatenation.
fn combine_digests<H: Hasher>(a: &Vec<u8>, b: &Vec<u8>, h: &H) -> (r: Vec<u8>)
    ensures
        r@ == h.hash_spec(a@ + b@),
{
    let mut combined = copy_bytes(a);
    let mut i: usize = 0;
    while i < b.len()
        invariant
            i <= b.len(),
            combined@ == a@ + b@.subrange(0, i as int),
        decreases b.len() - i,
    {
        combined.push(b[i]);
        proof {
            assert(a@ + b@.subrange(0, i + 1 as int) =~= (a@ + b@.subrange(0, i as int)).push(
                b@[i as int],
            ));
        }
        i += 1;
    }
    proof {
        assert(combined@ =~= a@ + b@);
    }
    h.hash(combined.as_slice())
}

/// The leaf count a knot records, read off the node itself.
fn knot_count<T: HashInput>(k: &MerkleKnot<T>) -> (n: usize)
    ensures
        n as nat == k.model().stored_count(),
{
    match k {
        MerkleKnot::Nil => 0,
        MerkleKnot::Leaf(_) => 1,
        MerkleKnot::Node(node) => node.items_count,
    }
}

/// The digest a non-empty knot carries.
fn knot_digest<'a, T: HashInput>(k: &'a MerkleKnot<T>) -> (r: &'a Vec<u8>)
    requires
        !(k.model() is Nil),
    ensures
        r@ == k.model().digest(),
{
    match k {
        MerkleKnot::Nil => vstd::pervasive::unreached(),
        MerkleKnot::Leaf(leaf) => &leaf.hash,
        MerkleKnot::Node(node) => &node.hash,
    }
}

/// Builds a leaf for `item`, hashing its byte view.
fn create_leaf_from_data<T: HashInput, H: Hasher>(item: T, h: &H) -> (leaf: MerkleLeaf<T>)
    ensures
        leaf.data == item,
        leaf.hash@ == h.hash_spec(item.bytes()),
{
    let hash = h.hash(item.byte_view());
    MerkleLeaf { data: item, hash }
}

/// Builds an internal node whose primary child is the given leaf and
/// whose secondary child is a fresh leaf for `data`.
fn create_node_from_leaf<T: HashInput, H: Hasher>(leaf: MerkleLeaf<T>, data: T, h: &H) -> (r:
    MerkleNode<T>)
    ensures
        r.model() == combine_model(
            KnotModel::Leaf { data: leaf.data.bytes(), hash: leaf.hash@ },
            leaf_model(data.bytes(), *h),
            *h,
        ),
{
    let right = create_leaf_from_data(data, h);
    let hash = combine_digests(&leaf.hash, &right.hash, h);
    MerkleNode {
        primary: Rc::new(MerkleKnot::Leaf(leaf)),
        secondary: Rc::new(MerkleKnot::Leaf(right)),
        hash,
        items_count: 2,
    }
}

/// Inserts `data` beneath a shared child knot, returning the replacement
/// child. The knot behind the handle is never changed: a `Nil` is
/// replaced by a fresh leaf, a leaf becomes the shared primary child of
/// a fresh internal node, and an internal node is rebuilt around the
/// insertion path.
fn insert_to_child<T: HashInput, H: Hasher>(child: &Rc<MerkleKnot<T>>, data: T, h: &H) -> (r: Rc<
    MerkleKnot<T>,
>)
    requires
        (**child).model().wf(*h),
        (**child).model().stored_count() < usize::MAX,
    ensures
        (*r).model() == spec_insert((**child).model(), data.bytes(), *h),
    decreases **child,
{
    match &**child {
        MerkleKnot::Nil => Rc::new(MerkleKnot::Leaf(create_leaf_from_data(data, h))),
        MerkleKnot::Leaf(leaf) => {
            let ghost data_bytes = data.bytes();
            let ghost child_model = child@;
            let ghost old_leaf = KnotModel::Leaf { data: leaf.data.bytes(), hash: leaf.hash@ };
            let right = create_leaf_from_data(data, h);
            let hash = combine_digests(&leaf.hash, &right.hash, h);
            let shared = rc_share(child);
            let sec = Rc::new(MerkleKnot::Leaf(right));
            proof {
                assert(child_model == old_leaf);
                assert(spec_insert(child_model, data_bytes, *h) == combine_model(
                    old_leaf,
                    leaf_model(data_bytes, *h),
                    *h,
                ));
                assert(shared@ == old_leaf);
                assert(sec@ == leaf_model(data_bytes, *h));
                assert(hash@ == h.hash_spec(old_leaf.digest() + leaf_model(data_bytes, *h).digest()));
            }
            let node = MerkleNode { primary: shared, secondary: sec, hash, items_count: 2 };
            proof {
                assert(node.model() =~= combine_model(old_leaf, leaf_model(data_bytes, *h), *h));
            }
            Rc::new(MerkleKnot::Node(node))
        },
        MerkleKnot::Node(node) => Rc::new(MerkleKnot::Node(insert_to_node(node, data, h))),
    }
}

/// Inserts `data` beneath an internal node, descending into the child
/// that records the fewer leaves (the primary child on a tie) and
/// rebuilding this node over the replacement child and the untouched,
/// shared sibling.
fn insert_to_node<T: HashInput, H: Hasher>(node: &MerkleNode<T>, data: T, h: &H) -> (r: MerkleNode<
    T,
>)
    requires
        node.model().wf(*h),
        node.items_count < usize::MAX,
    ensures
        r.model() == spec_insert(node.model(), data.bytes(), *h),
    decreases *node,
{
    let pc = knot_count(&node.primary);
    let sc = knot_count(&node.secondary);
    proof {
        lemma_wf_stored_count(node.primary@, *h);
        lemma_wf_stored_count(node.secondary@, *h);
    }
    if pc <= sc {
        proof {
            lemma_spec_insert_wf(node.primary@, data.bytes(), *h);
        }
        let new_primary = insert_to_child(&node.primary, data, h);
        let hash = combine_digests(knot_digest(&new_primary), knot_digest(&node.secondary), h);
        MerkleNode {
            primary: new_primary,
            secondary: rc_share(&node.secondary),
            hash,
            items_count: node.items_count + 1,
        }
    } else {
        proof {
            lemma_spec_insert_wf(node.secondary@, data.bytes(), *h);
        }
        let new_secondary = insert_to_child(&node.secondary, data, h);
        let hash = combine_digests(knot_digest(&node.primary), knot_digest(&new_secondary), h);
        MerkleNode {
            primary: rc_share(&node.primary),
            secondary: new_secondary,
            hash,
            items_count: node.items_count + 1,
        }
    }
}

/// Inserts `t` into an owned knot, returning the new root knot. Balanced
/// incremental insertion: the result's shape and digests are those of
/// `spec_insert` on the knot's model.
pub fn insert<T: HashInput, H: Hasher>(node: MerkleKnot<T>, t: T, h: &H) -> (r: MerkleKnot<T>)
    requires
        node.model().wf(*h),
        node.model().leaf_count() < usize::MAX,
    ensures
        r.model() == spec_insert(node.model(), t.bytes(), *h),
        r.model().wf(*h),
        r.model().leaf_count() == node.model().leaf_count() + 1,
{
    proof {
        lemma_wf_stored_count(node@, *h);
        lemma_spec_insert_wf(node@, t.bytes(), *h);
    }
    match node {
        MerkleKnot::Nil => MerkleKnot::Leaf(create_leaf_from_data(t, h)),
        MerkleKnot::Leaf(leaf) => MerkleKnot::Node(create_node_from_leaf(leaf, t, h)),
        MerkleKnot::Node(n) => MerkleKnot::Node(insert_to_node(&n, t, h)),
    }
}

/// A tree: a root knot together with the hashing capability bound at
/// construction.
pub struct MerkleTree<T, H> {
    pub root: MerkleKnot<T>,
    hasher: H,
}

impl<T: HashInput, H: Hasher> MerkleTree<T, H> {
    /// The hashing capability this tree was built with.
    pub closed spec fn hasher_spec(&self) -> H {
        self.hasher
    }

    /// The abstract shape of the tree's root.
    pub closed spec fn root_model(&self) -> KnotModel {
        self.root.model()
    }

    /// The tree's root is well-formed under the tree's own hash function.
    pub open spec fn wf(&self) -> bool {
        self.root_model().wf(self.hasher_spec())
    }

    /// A fresh, empty tree bound to `hasher`.
    pub fn new(hasher: H) -> (t: MerkleTree<T, H>)
        ensures
            t.root_model() == KnotModel::Nil,
            t.hasher_spec() == hasher,
            t.wf(),
    {
        MerkleTree { root: MerkleKnot::Nil, hasher }
    }

    /// Inserts one item: the new root's model is `spec_insert` of the old
    /// root's model, under the tree's hash function; the hash function
    /// itself never changes.
    pub fn insert(&mut self, t: T)
        requires
            old(self).wf(),
            old(self).root_model().leaf_count() < usize::MAX,
        ensures
            final(self).root_model() == spec_insert(
                old(self).root_model(),
                t.bytes(),
                old(self).hasher_spec(),
            ),
            final(self).hasher_spec() == old(self).hasher_spec(),
            final(self).wf(),
            final(self).root_model().leaf_count() == old(self).root_model().leaf_count() + 1,
    {
        let mut knot = MerkleKnot::Nil;
        core::mem::swap(&mut knot, &mut self.root);
        let new_root = insert(knot, t, &self.hasher);
        self.root = new_root;
    }

    /// The root digest, or `None` while no item has been inserted.
    pub fn root_digest(&self) -> (r: Option<Vec<u8>>)
        ensures
            match r {
                Some(d) => !(self.root_model() is Nil) && d@ == self.root_model().digest(),
                None => self.root_model() is Nil,
            },
    {
        match &self.root {
            MerkleKnot::Nil => None,
            MerkleKnot::Leaf(leaf) => Some(copy_bytes(&leaf.hash)),
            MerkleKnot::Node(node) => Some(copy_bytes(&node.hash)),
        }
    }

    /// The nested textual rendering of the whole tree.
    pub fn text_dump(&self) -> (r: String)
        ensures
            r@ == crate::render::render_model(self.root_model()),
    {
        crate::render::knot_to_xml(&self.root)
    }

    /// The number of items inserted so far.
    pub fn leaf_count(&self) -> (n: usize)
        requires
            self.wf(),
        ensures
            n as nat == self.root_model().leaf_count(),
    {
        proof {
            lemma_wf_stored_count(self.root_model(), self.hasher_spec());
        }
        knot_count(&self.root)
    }
}

} // verus!

