use std::rc::Rc;

use merkle_tree::hashing::Md5Hasher;
use merkle_tree::merkle_tree::{insert, MerkleKnot, MerkleTree};
use merkle_tree::render::{hex_string, leaf_to_xml};

fn new_tree() -> MerkleTree<Vec<u8>, Md5Hasher> {
    MerkleTree::new(Md5Hasher)
}

fn md5_bytes(data: &[u8]) -> Vec<u8> {
    md5::compute(data).0.to_vec()
}

/// The number of `Leaf` nodes beneath a knot, by full traversal, checking
/// on the way that every internal node records exactly that number.
fn checked_leaves(k: &MerkleKnot<Vec<u8>>) -> usize {
    match k {
        MerkleKnot::Nil => 0,
        MerkleKnot::Leaf(_) => 1,
        MerkleKnot::Node(node) => {
            let total = checked_leaves(&node.primary) + checked_leaves(&node.secondary);
            assert_eq!(node.items_count, total);
            total
        }
    }
}

#[test]
fn leaf_count_matches_number_of_inserts() {
    let mut t = new_tree();
    assert_eq!(t.leaf_count(), 0);
    for i in 0..7u8 {
        t.insert(vec![i, i + 1]);
        assert_eq!(t.leaf_count(), (i + 1) as usize);
    }
}

#[test]
fn internal_counts_match_full_traversal() {
    let mut t = new_tree();
    for i in 0..13u8 {
        t.insert(vec![i]);
        assert_eq!(checked_leaves(&t.root), (i + 1) as usize);
    }
}

#[test]
fn same_insertion_order_gives_same_root_digest() {
    let items: Vec<Vec<u8>> = vec![vec![9], vec![8, 8], vec![7], vec![6, 6, 6], vec![5]];
    let mut t1 = new_tree();
    let mut t2 = new_tree();
    for item in &items {
        t1.insert(item.clone());
        t2.insert(item.clone());
    }
    assert_eq!(t1.root_digest(), t2.root_digest());
    assert_eq!(t1.text_dump(), t2.text_dump());
}

#[test]
fn different_insertion_order_may_change_root_digest() {
    let a = vec![1u8];
    let b = vec![2u8];
    let c = vec![3u8];
    let mut t1 = new_tree();
    t1.insert(a.clone());
    t1.insert(b.clone());
    t1.insert(c.clone());
    let mut t2 = new_tree();
    t2.insert(c);
    t2.insert(b);
    t2.insert(a);
    assert_ne!(t1.root_digest(), t2.root_digest());
}

#[test]
fn untouched_subtrees_are_shared_by_reference() {
    let mut t = new_tree();
    t.insert(vec![1]); // A
    t.insert(vec![2]); // B
    t.insert(vec![3]); // C
    t.insert(vec![4]); // D
    // root = Node(Node(Leaf A, Leaf C), Node(Leaf B, Leaf D))
    let (old_primary, old_secondary) = match &t.root {
        MerkleKnot::Node(n) => (Rc::clone(&n.primary), Rc::clone(&n.secondary)),
        _ => panic!("expected an internal root"),
    };
    let (old_leaf_a, old_leaf_c) = match &*old_primary {
        MerkleKnot::Node(n) => (Rc::clone(&n.primary), Rc::clone(&n.secondary)),
        _ => panic!("expected an internal primary child"),
    };
    // counts tie at {2,2}: E descends into the primary subtree, then into
    // its primary leaf; Node(B,D) and Leaf C lie off the path.
    t.insert(vec![5]); // E
    match &t.root {
        MerkleKnot::Node(n) => {
            assert!(Rc::ptr_eq(&n.secondary, &old_secondary));
            match &*n.primary {
                MerkleKnot::Node(inner) => {
                    assert!(Rc::ptr_eq(&inner.secondary, &old_leaf_c));
                    match &*inner.primary {
                        MerkleKnot::Node(deepest) => {
                            // the old Leaf A is reused as the primary child
                            // of the new node built around E
                            assert!(Rc::ptr_eq(&deepest.primary, &old_leaf_a));
                        }
                        _ => panic!("expected an internal node around the new leaf"),
                    }
                }
                _ => panic!("expected an internal primary child"),
            }
        }
        _ => panic!("expected an internal root"),
    }
}

fn leaf_data<'a>(k: &'a MerkleKnot<Vec<u8>>) -> &'a Vec<u8> {
    match k {
        MerkleKnot::Leaf(leaf) => &leaf.data,
        _ => panic!("expected a leaf"),
    }
}

#[test]
fn four_insert_scenario_builds_complete_two_level_tree() {
    let a = vec![0xa1u8];
    let b = vec![0xb2u8];
    let c = vec![0xc3u8];
    let d = vec![0xd4u8];
    let mut t = new_tree();

    t.insert(a.clone());
    assert_eq!(leaf_data(&t.root), &a);

    t.insert(b.clone());
    match &t.root {
        MerkleKnot::Node(n) => {
            assert_eq!(n.items_count, 2);
            assert_eq!(leaf_data(&n.primary), &a);
            assert_eq!(leaf_data(&n.secondary), &b);
        }
        _ => panic!("expected an internal root after two inserts"),
    }

    // both children count 1: the tie favors the primary child, so C pairs
    // up with A
    t.insert(c.clone());
    match &t.root {
        MerkleKnot::Node(n) => {
            assert_eq!(n.items_count, 3);
            match &*n.primary {
                MerkleKnot::Node(inner) => {
                    assert_eq!(inner.items_count, 2);
                    assert_eq!(leaf_data(&inner.primary), &a);
                    assert_eq!(leaf_data(&inner.secondary), &c);
                }
                _ => panic!("expected an internal primary child after three inserts"),
            }
            assert_eq!(leaf_data(&n.secondary), &b);
        }
        _ => panic!("expected an internal root after three inserts"),
    }

    // counts {2,1}: D descends into the secondary child and pairs up with B
    t.insert(d.clone());
    match &t.root {
        MerkleKnot::Node(n) => {
            assert_eq!(n.items_count, 4);
            match &*n.primary {
                MerkleKnot::Node(inner) => {
                    assert_eq!(inner.items_count, 2);
                    assert_eq!(leaf_data(&inner.primary), &a);
                    assert_eq!(leaf_data(&inner.secondary), &c);
                }
                _ => panic!("expected an internal primary child after four inserts"),
            }
            match &*n.secondary {
                MerkleKnot::Node(inner) => {
                    assert_eq!(inner.items_count, 2);
                    assert_eq!(leaf_data(&inner.primary), &b);
                    assert_eq!(leaf_data(&inner.secondary), &d);
                }
                _ => panic!("expected an internal secondary child after four inserts"),
            }
        }
        _ => panic!("expected an internal root after four inserts"),
    }
    assert_eq!(t.leaf_count(), 4);
}

#[test]
fn empty_tree_has_no_digest() {
    let t = new_tree();
    assert_eq!(t.root_digest(), None);
    assert_eq!(t.text_dump(), "<NUL/>");
}

#[test]
fn leaf_digest_is_md5_of_item_bytes() {
    let mut t = new_tree();
    t.insert(Vec::new());
    let digest = t.root_digest().expect("one leaf");
    assert_eq!(hex_string(&digest), "d41d8cd98f00b204e9800998ecf8427e");

    let mut t2 = new_tree();
    t2.insert(vec![0xab, 0xcd]);
    assert_eq!(t2.root_digest().expect("one leaf"), md5_bytes(&[0xab, 0xcd]));
}

#[test]
fn internal_digest_hashes_concatenated_child_digests() {
    let a = vec![10u8, 20];
    let b = vec![30u8];
    let mut t = new_tree();
    t.insert(a.clone());
    t.insert(b.clone());
    let mut combined = md5_bytes(&a);
    combined.extend(md5_bytes(&b));
    assert_eq!(t.root_digest().expect("two leaves"), md5_bytes(&combined));
}

#[test]
fn text_dump_renders_nested_blocks_with_hex_digests() {
    let mut t = new_tree();
    t.insert(vec![0xab]);
    let leaf_digest_hex = format!("{:x}", md5::compute([0xab]));
    assert_eq!(
        t.text_dump(),
        format!("<leaf><data>ab</data><hash>{}</hash></leaf>", leaf_digest_hex)
    );

    t.insert(vec![0x01, 0x02]);
    let second_hex = format!("{:x}", md5::compute([0x01, 0x02]));
    let mut combined = md5_bytes(&[0xab]);
    combined.extend(md5_bytes(&[0x01, 0x02]));
    let root_hex = format!("{:x}", md5::compute(&combined));
    assert_eq!(
        t.text_dump(),
        format!(
            "<node><leaf><data>ab</data><hash>{}</hash></leaf><leaf><data>0102</data><hash>{}</hash></leaf><hash>{}</hash></node>",
            leaf_digest_hex, second_hex, root_hex
        )
    );
}

#[test]
fn leaf_to_xml_renders_item_bytes_as_hex() {
    let item = vec![0x01u8, 0xff];
    assert_eq!(leaf_to_xml(&item), "<leaf><data>01ff</data></leaf>");
}

#[test]
fn free_insert_grows_owned_knots() {
    let h = Md5Hasher;
    let k0: MerkleKnot<Vec<u8>> = MerkleKnot::Nil;
    let k1 = insert(k0, vec![1], &h);
    assert_eq!(leaf_data(&k1), &vec![1]);
    let k2 = insert(k1, vec![2], &h);
    match &k2 {
        MerkleKnot::Node(n) => {
            assert_eq!(n.items_count, 2);
            assert_eq!(leaf_data(&n.primary), &vec![1]);
            assert_eq!(leaf_data(&n.secondary), &vec![2]);
        }
        _ => panic!("expected an internal knot after two inserts"),
    }
    assert_eq!(checked_leaves(&k2), 2);
}

#[test]
fn hex_string_writes_two_digits_per_byte() {
    assert_eq!(hex_string(&[]), "");
    assert_eq!(hex_string(&[0x00, 0x0f, 0x10, 0xff]), "000f10ff");
}
