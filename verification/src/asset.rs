//! Widget documents written in KDL: the checks a document must pass, and the build steps
//! that its nodes describe.

use vstd::prelude::*;
use vstd::utf8::{decode_utf8, valid_utf8};

verus! {

#[verifier::external_type_specification]
#[verifier::external_body]
pub struct ExKdlNode(kdl::KdlNode);

#[verifier::external_type_specification]
#[verifier::external_body]
pub struct ExKdlError(kdl::KdlError);

/// A node of a KDL document, as far as a widget document is read: its name, how many
/// values and properties it carries, and its children in order.
pub struct DocNode {
    pub name: String,
    pub value_count: usize,
    pub property_count: usize,
    pub children: Vec<DocNode>,
}

/// The top-level nodes that `kdl::parse_document` reads from a text, or `None` where it
/// reports a syntax error.
pub uninterp spec fn kdl_document(text: Seq<char>) -> Option<Seq<DocNode>>;

/// `std::str::from_utf8`: the text the bytes encode, or `None` where they are not UTF-8.
#[verifier::external_body]
fn utf8_text(bytes: &[u8]) -> (r: Option<&str>)
    ensures
        r is Some <==> valid_utf8(bytes@),
        r matches Some(t) ==> t@ == decode_utf8(bytes@),
{
    std::str::from_utf8(bytes).ok()
}

/// `kdl::parse_document`: the top-level nodes of the text, each turned into a [`DocNode`],
/// or the parser's error. Both are fixed by the text alone, so they are named by
/// [`kdl_document`]; what the parser accepts is not written out here.
#[verifier::external_body]
fn parse_kdl(text: &str) -> (r: Result<Vec<DocNode>, kdl::KdlError>)
    ensures
        r is Ok <==> kdl_document(text@) is Some,
        r matches Ok(nodes) ==> kdl_document(text@) == Some(nodes@),
{
    kdl::parse_document(text).map(doc_nodes)
}

/// Turns parsed nodes into [`DocNode`]s, field by field, children included.
#[verifier::external_body]
fn doc_nodes(nodes: Vec<kdl::KdlNode>) -> Vec<DocNode> {
    nodes.into_iter().map(|n| DocNode {
        name: n.name,
        value_count: n.values.len(),
        property_count: n.properties.len(),
        children: doc_nodes(n.children),
    }).collect()
}

/// Why a widget document was refused.
pub enum LoadError {
    /// The bytes are not UTF-8.
    NotUtf8,
    /// The text is not a KDL document.
    Syntax(kdl::KdlError),
    /// The document has no node at all.
    MissingNodes,
    /// The first node is not named `imports`.
    FirstNotImports,
    /// The `imports` node has properties.
    ImportsHaveProperties,
    /// The `imports` node has values.
    ImportsHaveValues,
    /// An import has properties.
    ImportHasProperties,
    /// An import has values.
    ImportHasValues,
    /// An import has children.
    ImportHasChildren,
}

/// One step of building a widget from a document.
pub enum Op {
    /// Starts a child widget; the steps up to the matching `LeaveChild` build it.
    EnterChild,
    /// Ends the child widget started last.
    LeaveChild,
    /// Builds the import of this name here.
    Import(String),
}

/// The steps that one child node of a widget node contributes: a child widget for `-`, an
/// import for `-i`, and none for any other node, which names a component.
pub open spec fn child_ops(child: DocNode) -> Seq<Op>
    decreases child, 2int, 0int,
{
    if child.name@ == "-"@ {
        seq![Op::EnterChild] + node_ops(child) + seq![Op::LeaveChild]
    } else if child.name@ == "-i"@ {
        seq![Op::Import(child.name)]
    } else {
        Seq::empty()
    }
}

/// The steps of a list of child nodes, one after the other.
pub open spec fn children_ops(node: DocNode, n: int) -> Seq<Op>
    decreases node, 0int, n,
{
    if n <= 0 || n > node.children.len() {
        Seq::empty()
    } else {
        proof {
            assert(decreases_to!(node => node.children@[n - 1]));
        }
        children_ops(node, n - 1) + child_ops(node.children@[n - 1])
    }
}

/// The steps that build the widget a node describes.
pub open spec fn node_ops(node: DocNode) -> Seq<Op>
    decreases node, 1int, 0int,
{
    children_ops(node, node.children.len() as int)
}

/// The refusal that one import node earns: it must have no property, no value and no child.
pub open spec fn import_error(import: DocNode) -> Option<LoadError> {
    if import.property_count != 0 {
        Some(LoadError::ImportHasProperties)
    } else if import.value_count != 0 {
        Some(LoadError::ImportHasValues)
    } else if import.children.len() != 0 {
        Some(LoadError::ImportHasChildren)
    } else {
        None
    }
}

/// The refusal of the first import from position `i` on that earns one.
pub open spec fn imports_error(imports: Seq<DocNode>, i: int) -> Option<LoadError>
    decreases imports.len() - i,
{
    if i < 0 || i >= imports.len() {
        None
    } else {
        match import_error(imports[i]) {
            Some(e) => Some(e),
            None => imports_error(imports, i + 1),
        }
    }
}

/// Why a document is refused, or `None` where it is accepted: it must start with a node named
/// `imports` that has neither properties nor values and whose children are valid imports.
pub open spec fn document_error(doc: Seq<DocNode>) -> Option<LoadError> {
    if doc.len() == 0 {
        Some(LoadError::MissingNodes)
    } else if doc[0].name@ != "imports"@ {
        Some(LoadError::FirstNotImports)
    } else if doc[0].property_count != 0 {
        Some(LoadError::ImportsHaveProperties)
    } else if doc[0].value_count != 0 {
        Some(LoadError::ImportsHaveValues)
    } else {
        imports_error(doc[0].children@, 0)
    }
}

/// The steps of the widget nodes among the first `n` top-level nodes, that is of all but the
/// first, one after the other.
pub open spec fn body_ops(doc: Seq<DocNode>, n: int) -> Seq<Op>
    decreases n,
{
    if n <= 1 || n > doc.len() {
        Seq::empty()
    } else {
        body_ops(doc, n - 1) + node_ops(doc[n - 1])
    }
}

/// Whether `s` is the text `lit`.
fn is_text(s: &String, lit: &str) -> (r: bool)
    ensures
        r == (s@ == lit@),
{
    let owned = lit.to_owned();
    *s == owned
}

/// Appends the steps that build the widget `node` describes.
pub fn parse_node(node: &DocNode, ops: &mut Vec<Op>)
    ensures
        final(ops)@ == old(ops)@ + node_ops(*node),
    decreases node,
{
    let mut i: usize = 0;
    while i < node.children.len()
        invariant
            i <= node.children.len(),
            ops@ == old(ops)@ + children_ops(*node, i as int),
        decreases node.children.len() - i,
    {
        let child = &node.children[i];
        if is_text(&child.name, "-") {
            ops.push(Op::EnterChild);
            proof {
                assert(decreases_to!(node => node.children@[i as int]));
            }
            parse_node(child, ops);
            ops.push(Op::LeaveChild);
        } else if is_text(&child.name, "-i") {
            ops.push(Op::Import(child.name.clone()));
        }
        assert(ops@ == old(ops)@ + children_ops(*node, i as int) + child_ops(node.children@[i as int]));
        i += 1;
    }
}

/// The refusal that one import node earns, checked in the order properties, values,
/// children.
fn check_import(import: &DocNode) -> (r: Option<LoadError>)
    ensures
        r == import_error(*import),
{
    if import.property_count != 0 {
        Some(LoadError::ImportHasProperties)
    } else if import.value_count != 0 {
        Some(LoadError::ImportHasValues)
    } else if import.children.len() != 0 {
        Some(LoadError::ImportHasChildren)
    } else {
        None
    }
}

/// Checks a parsed document and gives the steps of its widget nodes, or the refusal of the
/// first check that fails.
pub fn load_document(doc: &Vec<DocNode>) -> (r: Result<Vec<Op>, LoadError>)
    ensures
        match document_error(doc@) {
            Some(e) => r == Err::<Vec<Op>, LoadError>(e),
            None => r matches Ok(ops) && ops@ == body_ops(doc@, doc.len() as int),
        },
{
    if doc.len() == 0 {
        return Err(LoadError::MissingNodes);
    }
    let imports = &doc[0];
    if !is_text(&imports.name, "imports") {
        return Err(LoadError::FirstNotImports);
    }
    if imports.property_count != 0 {
        return Err(LoadError::ImportsHaveProperties);
    }
    if imports.value_count != 0 {
        return Err(LoadError::ImportsHaveValues);
    }
    let mut i: usize = 0;
    assert(document_error(doc@) == imports_error(imports.children@, 0));
    while i < imports.children.len()
        invariant
            i <= imports.children.len(),
            document_error(doc@) == imports_error(imports.children@, i as int),
        decreases imports.children.len() - i,
    {
        match check_import(&imports.children[i]) {
            Some(e) => {
                return Err(e);
            },
            None => {},
        }
        i += 1;
    }
    assert(document_error(doc@) is None);
    let mut ops: Vec<Op> = Vec::new();
    let mut k: usize = 1;
    while k < doc.len()
        invariant
            1 <= k <= doc.len(),
            ops@ == body_ops(doc@, k as int),
        decreases doc.len() - k,
    {
        parse_node(&doc[k], &mut ops);
        k += 1;
    }
    Ok(ops)
}

/// Loads widget documents, files ending in `.ui` or `.ui.kdl`.
pub struct KdlAssetLoader;

impl KdlAssetLoader {
    /// Reads a widget document from bytes: they must be UTF-8 text, the text a KDL document,
    /// and the document must pass [`load_document`].
    pub fn load(&self, bytes: &[u8]) -> (r: Result<(), LoadError>)
        ensures
            !valid_utf8(bytes@) ==> r matches Err(LoadError::NotUtf8),
            valid_utf8(bytes@) && kdl_document(decode_utf8(bytes@)) is None ==> r matches Err(
                LoadError::Syntax(_),
            ),
            valid_utf8(bytes@) ==> (kdl_document(decode_utf8(bytes@)) matches Some(doc) ==> match document_error(doc) {
                Some(e) => r == Err::<(), LoadError>(e),
                None => r is Ok,
            }),
    {
        let text = match utf8_text(bytes) {
            Some(t) => t,
            None => {
                return Err(LoadError::NotUtf8);
            },
        };
        let doc = match parse_kdl(text) {
            Ok(nodes) => nodes,
            Err(e) => {
                return Err(LoadError::Syntax(e));
            },
        };
        match load_document(&doc) {
            Ok(_) => Ok(()),
            Err(e) => Err(e),
        }
    }
}

} // verus!
