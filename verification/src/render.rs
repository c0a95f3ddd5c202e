//! The diagnostic serializer: a nested textual rendering of a tree, with
//! item bytes and digests written as hexadecimal.

use vstd::prelude::*;
use vstd::string::StringExecFns;
use crate::hashing::HashInput;
use crate::merkle_tree::{KnotModel, MerkleKnot};

verus! {

/// The lower-case hexadecimal digit for a value below sixteen.
pub open spec fn hex_char(n: int) -> char {
    if n == 0 {
        '0'
    } else if n == 1 {
        '1'
    } else if n == 2 {
        '2'
    } else if n == 3 {
        '3'
    } else if n == 4 {
        '4'
    } else if n == 5 {
        '5'
    } else if n == 6 {
        '6'
    } else if n == 7 {
        '7'
    } else if n == 8 {
        '8'
    } else if n == 9 {
        '9'
    } else if n == 10 {
        'a'
    } else if n == 11 {
        'b'
    } else if n == 12 {
        'c'
    } else if n == 13 {
        'd'
    } else if n == 14 {
        'e'
    } else {
        'f'
    }
}

/// A byte written as two hexadecimal digits, high nibble first.
pub open spec fn hex_of_byte(b: u8) -> Seq<char> {
    seq![hex_char(b as int / 16), hex_char(b as int % 16)]
}

/// A byte sequence written as hexadecimal digits.
pub open spec fn hex_of_bytes(s: Seq<u8>) -> Seq<char>
    decreases s.len(),
{
    if s.len() == 0 {
        Seq::empty()
    } else {
        hex_of_byte(s[0]) + hex_of_bytes(s.drop_first())
    }
}

/// The nested textual form of a knot: a marker token for `Nil`, a tagged
/// block with item bytes and digest for a leaf, and a tagged block with
/// both child renderings and this node's digest for an internal node.
pub open spec fn render_model(k: KnotModel) -> Seq<char>
    decreases k,
{
    match k {
        KnotModel::Nil => "<NUL/>"@,
        KnotModel::Leaf { data, hash } => "<leaf><data>"@ + hex_of_bytes(data) + "</data><hash>"@
            + hex_of_bytes(hash) + "</hash></leaf>"@,
        KnotModel::Node { primary, secondary, hash, .. } => "<node>"@ + render_model(*primary)
            + render_model(*secondary) + "<hash>"@ + hex_of_bytes(hash) + "</hash></node>"@,
    }
}

/// The one-character rendering of a hexadecimal digit value.
fn hex_digit(n: u8) -> (r: &'static str)
    requires
        n < 16,
    ensures
        r@ == seq![hex_char(n as int)],
{
    let r: &'static str = match n {
        0 => "0",
        1 => "1",
        2 => "2",
        3 => "3",
        4 => "4",
        5 => "5",
        6 => "6",
        7 => "7",
        8 => "8",
        9 => "9",
        10 => "a",
        11 => "b",
        12 => "c",
        13 => "d",
        14 => "e",
        _ => "f",
    };
    proof {
        reveal_strlit("0");
        reveal_strlit("1");
        reveal_strlit("2");
        reveal_strlit("3");
        reveal_strlit("4");
        reveal_strlit("5");
        reveal_strlit("6");
        reveal_strlit("7");
        reveal_strlit("8");
        reveal_strlit("9");
        reveal_strlit("a");
        reveal_strlit("b");
        reveal_strlit("c");
        reveal_strlit("d");
        reveal_strlit("e");
        reveal_strlit("f");
        assert(r@ =~= seq![hex_char(n as int)]);
    }
    r
}

/// Writes a byte slice as hexadecimal digits.
pub fn hex_string(bytes: &[u8]) -> (r: String)
    ensures
        r@ == hex_of_bytes(bytes@),
{
    let mut r = String::new();
    let mut i: usize = 0;
    while i < bytes.len()
        invariant
            i <= bytes@.len(),
            r@ == hex_of_bytes(bytes@.subrange(0, i as int)),
        decreases bytes@.len() - i,
    {
        let b = bytes[i];
        r.append(hex_digit(b / 16));
        r.append(hex_digit(b % 16));
        proof {
            let prefix = bytes@.subrange(0, i as int);
            let next = bytes@.subrange(0, i + 1 as int);
            lemma_hex_of_bytes_snoc(prefix, b);
            assert(next =~= prefix.push(b));
        }
        i += 1;
    }
    proof {
        assert(bytes@.subrange(0, bytes@.len() as int) =~= bytes@);
    }
    r
}

/// Appending one byte appends its two digits to the rendering.
proof fn lemma_hex_of_bytes_snoc(s: Seq<u8>, b: u8)
    ensures
        hex_of_bytes(s.push(b)) == hex_of_bytes(s) + hex_of_byte(b),
    decreases s.len(),
{
    if s.len() == 0 {
        assert(s.push(b)[0] == b);
        assert(s.push(b).drop_first() =~= Seq::<u8>::empty());
        assert(s =~= Seq::<u8>::empty());
        assert(hex_of_bytes(Seq::<u8>::empty()) == Seq::<char>::empty());
        assert(hex_of_bytes(s.push(b)) =~= hex_of_bytes(s) + hex_of_byte(b));
    } else {
        assert(s.push(b).drop_first() =~= s.drop_first().push(b));
        lemma_hex_of_bytes_snoc(s.drop_first(), b);
        assert(s.push(b)[0] == s[0]);
        assert(hex_of_bytes(s.push(b)) =~= hex_of_bytes(s) + hex_of_byte(b));
    }
}

/// Renders an item alone as a leaf block, its bytes as hexadecimal.
pub fn leaf_to_xml<T: HashInput>(data: &T) -> (r: String)
    ensures
        r@ == "<leaf><data>"@ + hex_of_bytes(data.bytes()) + "</data></leaf>"@,
{
    let mut r = String::new();
    r.append("<leaf><data>");
    let hexed = hex_string(data.byte_view());
    r.append(hexed.as_str());
    r.append("</data></leaf>");
    proof {
        assert(r@ =~= "<leaf><data>"@ + hex_of_bytes(data.bytes()) + "</data></leaf>"@);
    }
    r
}

/// Renders a knot and everything beneath it.
pub fn knot_to_xml<T: HashInput>(k: &MerkleKnot<T>) -> (r: String)
    ensures
        r@ == render_model(k@),
    decreases k,
{
    match k {
        MerkleKnot::Nil => {
            let mut r = String::new();
            r.append("<NUL/>");
            r
        },
        MerkleKnot::Leaf(leaf) => {
            let mut r = String::new();
            r.append("<leaf><data>");
            let data_hex = hex_string(leaf.data.byte_view());
            r.append(data_hex.as_str());
            r.append("</data><hash>");
            let hash_hex = hex_string(leaf.hash.as_slice());
            r.append(hash_hex.as_str());
            r.append("</hash></leaf>");
            proof {
                assert(r@ =~= render_model(k@));
            }
            r
        },
        MerkleKnot::Node(node) => {
            let mut r = String::new();
            r.append("<node>");
            let primary_xml = knot_to_xml(&node.primary);
            r.append(primary_xml.as_str());
            let secondary_xml = knot_to_xml(&node.secondary);
            r.append(secondary_xml.as_str());
            r.append("<hash>");
            let hash_hex = hex_string(node.hash.as_slice());
            r.append(hash_hex.as_str());
            r.append("</hash></node>");
            proof {
                assert(r@ =~= render_model(k@));
            }
            r
        },
    }
}

} // verus!

