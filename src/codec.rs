//! The fixed four-field record that a tree is encoded to: a type tag, the
//! digest, then two slots that hold the leaf value or the two subtrees, with
//! an empty text where a slot is unused.
use crate::tree::{Tree, TreeModel};
use vstd::prelude::*;

verus! {

/// One of the two slots after the tag and the digest.
#[derive(Debug, PartialEq)]
pub enum RecordField {
    Text(String),
    Record(Box<TreeRecord>),
}

/// The encoded form of one tree node.
#[derive(Debug, PartialEq)]
pub struct TreeRecord {
    /// `"empty"`, `"leaf"` or `"node"`.
    pub node_type: String,
    pub hash: Vec<u8>,
    /// The leaf value, or the left subtree, or an empty text.
    pub value_or_left: RecordField,
    /// The right subtree, or an empty text.
    pub right: RecordField,
}

/// Names the slot that did not hold what the tag calls for.
#[derive(Clone, Copy, Debug, PartialEq, Eq, Structural)]
pub enum FieldName {
    Value,
    Left,
    Right,
}

/// Why a record could not be decoded.
#[derive(Debug, PartialEq)]
pub enum DecodeError {
    /// The tag is none of `"empty"`, `"leaf"`, `"node"`; it holds the tag found.
    BadNodeType(String),
    /// A slot holds a text where a subtree is due, or the reverse.
    MalformedField(FieldName),
}

/// A slot as a mathematical value.
pub enum FieldModel {
    Text(Seq<char>),
    Record(Box<RecordModel>),
}

/// A record as a mathematical value.
pub struct RecordModel {
    pub node_type: Seq<char>,
    pub hash: Seq<u8>,
    pub value_or_left: FieldModel,
    pub right: FieldModel,
}

/// A decoding error as a mathematical value.
pub enum DecodeErrorModel {
    BadNodeType(Seq<char>),
    MalformedField(FieldName),
}

impl TreeRecord {
    pub open spec fn model(self) -> RecordModel
        decreases self,
    {
        RecordModel {
            node_type: self.node_type@,
            hash: self.hash@,
            value_or_left: field_model(self.value_or_left),
            right: field_model(self.right),
        }
    }
}

pub open spec fn field_model(f: RecordField) -> FieldModel
    decreases f,
{
    match f {
        RecordField::Text(s) => FieldModel::Text(s@),
        RecordField::Record(r) => FieldModel::Record(Box::new(r.model())),
    }
}

impl View for TreeRecord {
    type V = RecordModel;

    open spec fn view(&self) -> RecordModel {
        self.model()
    }
}

impl View for DecodeError {
    type V = DecodeErrorModel;

    open spec fn view(&self) -> DecodeErrorModel {
        match self {
            DecodeError::BadNodeType(s) => DecodeErrorModel::BadNodeType(s@),
            DecodeError::MalformedField(f) => DecodeErrorModel::MalformedField(*f),
        }
    }
}

/// The record that a tree is encoded to.
pub open spec fn record_of(t: TreeModel) -> RecordModel
    decreases t,
{
    match t {
        TreeModel::Empty { hash } => RecordModel {
            node_type: "empty"@,
            hash,
            value_or_left: FieldModel::Text(Seq::empty()),
            right: FieldModel::Text(Seq::empty()),
        },
        TreeModel::Leaf { hash, value } => RecordModel {
            node_type: "leaf"@,
            hash,
            value_or_left: FieldModel::Text(value),
            right: FieldModel::Text(Seq::empty()),
        },
        TreeModel::Node { hash, left, right } => RecordModel {
            node_type: "node"@,
            hash,
            value_or_left: FieldModel::Record(Box::new(record_of(*left))),
            right: FieldModel::Record(Box::new(record_of(*right))),
        },
    }
}

/// The tree that a record decodes to, or the first error met: the tag is
/// read first, then the left subtree in full, then the right one.
pub open spec fn tree_of(r: RecordModel) -> Result<TreeModel, DecodeErrorModel>
    decreases r,
{
    if r.node_type == "empty"@ {
        Ok(TreeModel::Empty { hash: r.hash })
    } else if r.node_type == "node"@ {
        match r.value_or_left {
            FieldModel::Record(l) => match tree_of(*l) {
                Ok(left) => match r.right {
                    FieldModel::Record(rr) => match tree_of(*rr) {
                        Ok(right) => Ok(
                            TreeModel::Node { hash: r.hash, left: Box::new(left), right: Box::new(right) },
                        ),
                        Err(e) => Err(e),
                    },
                    FieldModel::Text(_) => Err(DecodeErrorModel::MalformedField(FieldName::Right)),
                },
                Err(e) => Err(e),
            },
            FieldModel::Text(_) => Err(DecodeErrorModel::MalformedField(FieldName::Left)),
        }
    } else if r.node_type == "leaf"@ {
        match r.value_or_left {
            FieldModel::Text(v) => Ok(TreeModel::Leaf { hash: r.hash, value: v }),
            FieldModel::Record(_) => Err(DecodeErrorModel::MalformedField(FieldName::Value)),
        }
    } else {
        Err(DecodeErrorModel::BadNodeType(r.node_type))
    }
}

fn text(s: &str) -> (r: String)
    ensures
        r@ == s@,
{
    s.to_string()
}

/// The names of the two slots under a tag: `"left"` and `"right"` for a
/// node, `"value"` and `""` for a leaf, `""` and `""` otherwise.
pub fn field_names(node_type: &String) -> (r: (&'static str, &'static str))
    ensures
        r.0@ == (if node_type@ == "node"@ {
            "left"@
        } else if node_type@ == "leaf"@ {
            "value"@
        } else {
            ""@
        }),
        r.1@ == (if node_type@ == "node"@ {
            "right"@
        } else {
            ""@
        }),
{
    if *node_type == text("node") {
        ("left", "right")
    } else if *node_type == text("leaf") {
        ("value", "")
    } else {
        ("", "")
    }
}

/// Encodes a tree, recursively, to records of four fields.
pub fn encode(tree: &Tree) -> (r: TreeRecord)
    ensures
        r@ == record_of(tree@),
    decreases tree,
{
    match tree {
        Tree::Empty { hash } => {
            let h = hash.clone();
            assert(h@ =~= hash@);
            TreeRecord {
                node_type: text("empty"),
                hash: h,
                value_or_left: RecordField::Text(String::new()),
                right: RecordField::Text(String::new()),
            }
        },
        Tree::Leaf { hash, value } => {
            let h = hash.clone();
            assert(h@ =~= hash@);
            TreeRecord {
                node_type: text("leaf"),
                hash: h,
                value_or_left: RecordField::Text(value.clone()),
                right: RecordField::Text(String::new()),
            }
        },
        Tree::Node { hash, left, right } => {
            let h = hash.clone();
            assert(h@ =~= hash@);
            let l = encode(left);
            let r = encode(right);
            TreeRecord {
                node_type: text("node"),
                hash: h,
                value_or_left: RecordField::Record(Box::new(l)),
                right: RecordField::Record(Box::new(r)),
            }
        },
    }
}

/// Decodes a record, recursively; the digests are kept as they are, not
/// checked against the children.
pub fn decode(rec: TreeRecord) -> (r: Result<Tree, DecodeError>)
    ensures
        match r {
            Ok(t) => tree_of(rec@) == Ok::<TreeModel, DecodeErrorModel>(t@),
            Err(e) => tree_of(rec@) == Err::<TreeModel, DecodeErrorModel>(e@),
        },
    decreases rec,
{
    let TreeRecord { node_type, hash, value_or_left, right } = rec;
    if node_type == text("empty") {
        Ok(Tree::Empty { hash })
    } else if node_type == text("node") {
        match value_or_left {
            RecordField::Record(l) => {
                let left = decode(*l)?;
                match right {
                    RecordField::Record(rr) => {
                        let right = decode(*rr)?;
                        Ok(Tree::Node { hash, left: Box::new(left), right: Box::new(right) })
                    },
                    RecordField::Text(_) => Err(DecodeError::MalformedField(FieldName::Right)),
                }
            },
            RecordField::Text(_) => Err(DecodeError::MalformedField(FieldName::Left)),
        }
    } else if node_type == text("leaf") {
        match value_or_left {
            RecordField::Text(value) => Ok(Tree::Leaf { hash, value }),
            RecordField::Record(_) => Err(DecodeError::MalformedField(FieldName::Value)),
        }
    } else {
        Err(DecodeError::BadNodeType(node_type))
    }
}

/// Decoding what a tree was encoded to gives the same tree back, digests
/// and leaf values included.
pub proof fn lemma_round_trip(t: TreeModel)
    ensures
        tree_of(record_of(t)) == Ok::<TreeModel, DecodeErrorModel>(t),
    decreases t,
{
    reveal_strlit("empty");
    reveal_strlit("leaf");
    reveal_strlit("node");
    match t {
        TreeModel::Node { left, right, .. } => {
            lemma_round_trip(*left);
            lemma_round_trip(*right);
            assert("node"@[0] != "empty"@[0]);
        },
        TreeModel::Leaf { .. } => {
            assert("leaf"@[0] != "empty"@[0]);
            assert("leaf"@[0] != "node"@[0]);
        },
        TreeModel::Empty { .. } => {},
    }
}

/// A record whose tag is none of the three known ones decodes to no tree,
/// whatever its other fields hold.
pub proof fn lemma_bad_tag_rejected(r: RecordModel)
    requires
        r.node_type != "empty"@,
        r.node_type != "node"@,
        r.node_type != "leaf"@,
    ensures
        tree_of(r) == Err::<TreeModel, DecodeErrorModel>(DecodeErrorModel::BadNodeType(r.node_type)),
{
}

} // verus!
