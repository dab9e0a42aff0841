use merkletree::codec::{decode, encode, DecodeError, FieldName, RecordField, TreeRecord};
use merkletree::hashutils::{hash_empty, hash_leaf, hash_nodes, HashAlgorithm};
use merkletree::iter::{LeavesIntoIterator, LeavesIterator};
use merkletree::tree::Tree;

fn hex(b: &[u8]) -> String {
    b.iter().map(|x| format!("{:02x}", x)).collect()
}

fn leaf(v: &str) -> Tree {
    Tree::new_leaf(HashAlgorithm::Sha256, v.to_string())
}

fn sample_node() -> Tree {
    Tree::new_node(HashAlgorithm::Sha256, leaf("a"), leaf("b"))
}

fn collect(mut it: LeavesIterator<'_>) -> Vec<String> {
    let mut out = Vec::new();
    while let Some(v) = it.next() {
        out.push(v.clone());
    }
    out
}

fn collect_owned(mut it: LeavesIntoIterator) -> Vec<String> {
    let mut out = Vec::new();
    while let Some(v) = it.next() {
        out.push(v);
    }
    out
}

fn text(s: &str) -> RecordField {
    RecordField::Text(s.to_string())
}

#[test]
fn empty_digest_is_digest_of_nothing() {
    assert_eq!(
        hex(&hash_empty(HashAlgorithm::Sha256)),
        "e3b0c44298fc1c149afbf4c8996fb92427ae41e4649b934ca495991b7852b855"
    );
    assert_eq!(hex(&hash_empty(HashAlgorithm::Sha1)), "da39a3ee5e6b4b0d3255bfef95601890afd80709");
}

#[test]
fn leaf_digest_uses_leaf_prefix() {
    assert_eq!(
        hex(&hash_leaf(HashAlgorithm::Sha256, &"a".to_string())),
        "022a6979e6dab7aa5ae4c3e5e45f7e977112a7e63593820dbec1ec738a24f93c"
    );
    assert_eq!(
        hex(&hash_leaf(HashAlgorithm::Sha256, &"b".to_string())),
        "57eb35615d47f34ec714cacdf5fd74608a5e8e102724e80b24b287c0c27b6a31"
    );
}

#[test]
fn digest_lengths_follow_algorithm() {
    let v = "x".to_string();
    assert_eq!(hash_leaf(HashAlgorithm::Sha1, &v).len(), 20);
    assert_eq!(hash_leaf(HashAlgorithm::Sha256, &v).len(), 32);
    assert_eq!(hash_leaf(HashAlgorithm::Sha384, &v).len(), 48);
    assert_eq!(hash_leaf(HashAlgorithm::Sha512, &v).len(), 64);
    assert_eq!(hash_leaf(HashAlgorithm::Sha512_256, &v).len(), 32);
}

#[test]
fn two_leaf_node_scenario() {
    let n = sample_node();
    assert_eq!(n.get_count(), 2);
    assert_eq!(n.get_height(), 1);
    assert_eq!(collect(n.iter()), vec!["a".to_string(), "b".to_string()]);
    let la = hash_leaf(HashAlgorithm::Sha256, &"a".to_string());
    let lb = hash_leaf(HashAlgorithm::Sha256, &"b".to_string());
    assert_eq!(n.hash(), &hash_nodes(HashAlgorithm::Sha256, &la, &lb));
    assert_eq!(hex(n.hash()), "b137985ff484fb600db93107c77b0365c80d78f5b429ded0fd97361d077999eb");
}

#[test]
fn node_digest_combines_children() {
    let n = sample_node();
    match &n {
        Tree::Node { hash, left, right } => {
            assert_eq!(hash, &hash_nodes(HashAlgorithm::Sha256, left.hash(), right.hash()));
        }
        _ => panic!("expected a node"),
    }
}

#[test]
fn encoded_node_decodes_to_same_leaves_and_digest() {
    let n = sample_node();
    let rec = encode(&n);
    let back = decode(rec).unwrap();
    assert_eq!(collect(back.iter()), vec!["a".to_string(), "b".to_string()]);
    assert_eq!(back.hash(), n.hash());
    assert_eq!(back, n);
}

#[test]
fn empty_tree_scenario() {
    let e = Tree::empty(hash_empty(HashAlgorithm::Sha256));
    assert_eq!(e.get_count(), 0);
    assert_eq!(e.get_height(), 0);
    let mut it = e.iter();
    assert!(it.next().is_none());
    assert!(it.next().is_none());
    assert_eq!(collect_owned(e.into_iter()), Vec::<String>::new());
}

#[test]
fn single_leaf_has_height_zero_and_count_one() {
    let l = Tree::new(vec![1, 2, 3], "only".to_string());
    assert_eq!(l.get_height(), 0);
    assert_eq!(l.get_count(), 1);
    assert_eq!(l.hash(), &vec![1u8, 2, 3]);
    assert_eq!(collect(l.iter()), vec!["only".to_string()]);
}

#[test]
fn traversal_order_on_unbalanced_tree() {
    let alg = HashAlgorithm::Sha256;
    let inner = Tree::new_node(alg, leaf("b"), Tree::new_node(alg, leaf("c"), leaf("d")));
    let t = Tree::new_node(alg, Tree::new_node(alg, leaf("a"), inner), leaf("e"));
    let want: Vec<String> = ["a", "b", "c", "d", "e"].iter().map(|s| s.to_string()).collect();
    assert_eq!(t.get_count(), 5);
    assert_eq!(t.get_height(), 4);
    let first = collect(t.iter());
    let second = collect(t.iter());
    assert_eq!(first, want);
    assert_eq!(second, first);
    assert_eq!(first.len(), t.get_count());
    assert_eq!(collect_owned(t.into_iter()), want);
}

#[test]
fn traversal_stops_at_nested_empty_tree() {
    let t = Tree::new_node(
        HashAlgorithm::Sha256,
        Tree::empty(vec![0]),
        leaf("b"),
    );
    assert_eq!(t.get_count(), 1);
    let mut it = t.iter();
    assert!(it.next().is_none());
}

#[test]
fn traversal_reaches_every_leaf_before_trailing_empty() {
    let t = Tree::new_node(HashAlgorithm::Sha256, leaf("a"), Tree::empty(vec![0]));
    assert_eq!(t.get_count(), 1);
    assert_eq!(collect(t.iter()), vec!["a".to_string()]);
}

#[test]
fn encode_gives_fixed_four_fields() {
    let rec = encode(&Tree::empty(vec![9]));
    assert_eq!(rec.node_type, "empty");
    assert_eq!(rec.hash, vec![9u8]);
    assert_eq!(rec.value_or_left, text(""));
    assert_eq!(rec.right, text(""));
    let rec = encode(&Tree::new(vec![7], "v".to_string()));
    assert_eq!(rec.node_type, "leaf");
    assert_eq!(rec.value_or_left, text("v"));
    assert_eq!(rec.right, text(""));
    let rec = encode(&sample_node());
    assert_eq!(rec.node_type, "node");
    assert!(matches!(rec.value_or_left, RecordField::Record(_)));
    assert!(matches!(rec.right, RecordField::Record(_)));
}

#[test]
fn round_trip_keeps_every_variant() {
    let alg = HashAlgorithm::Sha512;
    let t = Tree::new_node(alg, Tree::empty(hash_empty(alg)), Tree::new_node(alg, leaf("x"), leaf("")));
    let back = decode(encode(&t)).unwrap();
    assert_eq!(back, t);
}

#[test]
fn decode_empty_ignores_other_fields() {
    let rec = TreeRecord {
        node_type: "empty".to_string(),
        hash: vec![5],
        value_or_left: text("ignored"),
        right: text("also"),
    };
    assert_eq!(decode(rec).unwrap(), Tree::empty(vec![5]));
}

#[test]
fn decode_rejects_unknown_tag() {
    for tag in ["", "Leaf", "nodes", "branch"] {
        let rec = TreeRecord {
            node_type: tag.to_string(),
            hash: vec![1],
            value_or_left: text(""),
            right: text(""),
        };
        assert_eq!(decode(rec), Err(DecodeError::BadNodeType(tag.to_string())));
    }
}

#[test]
fn decode_rejects_misplaced_fields() {
    let sub = || Box::new(encode(&leaf("a")));
    let rec = TreeRecord {
        node_type: "node".to_string(),
        hash: vec![],
        value_or_left: text("a"),
        right: RecordField::Record(sub()),
    };
    assert_eq!(decode(rec), Err(DecodeError::MalformedField(FieldName::Left)));
    let rec = TreeRecord {
        node_type: "node".to_string(),
        hash: vec![],
        value_or_left: RecordField::Record(sub()),
        right: text(""),
    };
    assert_eq!(decode(rec), Err(DecodeError::MalformedField(FieldName::Right)));
    let rec = TreeRecord {
        node_type: "leaf".to_string(),
        hash: vec![],
        value_or_left: RecordField::Record(sub()),
        right: text(""),
    };
    assert_eq!(decode(rec), Err(DecodeError::MalformedField(FieldName::Value)));
}

#[test]
fn decode_reports_nested_error() {
    let bad = TreeRecord {
        node_type: "bogus".to_string(),
        hash: vec![],
        value_or_left: text(""),
        right: text(""),
    };
    let rec = TreeRecord {
        node_type: "node".to_string(),
        hash: vec![3],
        value_or_left: RecordField::Record(Box::new(encode(&leaf("a")))),
        right: RecordField::Record(Box::new(bad)),
    };
    assert_eq!(decode(rec), Err(DecodeError::BadNodeType("bogus".to_string())));
}

#[test]
fn iterator_from_new_matches_tree_iter() {
    let n = sample_node();
    assert_eq!(collect(LeavesIterator::new(&n)), collect(n.iter()));
}
