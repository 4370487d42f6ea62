//! Read access to XML documents parsed by `roxmltree`.
//!
//! A parsed document is a table of nodes in document order; node 0 is the
//! document root. Each node is viewed as its local tag name (for an
//! element), what `Node::text` returns for it, and the ids of its children.

use vstd::prelude::*;

verus! {

#[verifier::external_type_specification]
#[verifier::external_body]
pub struct ExDocument<'input>(roxmltree::Document<'input>);

/// The view of one node: the element's local name (`None` for any other
/// kind of node), its text as `Node::text` returns it, and its children.
pub type XmlNodeView = (Option<Seq<char>>, Option<Seq<char>>, Seq<usize>);

/// What a parsed document holds: its nodes in document order, node 0 being
/// the root.
pub uninterp spec fn xml_nodes(doc: roxmltree::Document) -> Seq<(Option<Seq<char>>, Option<Seq<char>>, Seq<usize>)>;

/// What `roxmltree::Document::parse` makes of a text with its default
/// options (no DTD allowed), as the node table, or `None` where it fails.
pub uninterp spec fn xml_parse(s: Seq<char>) -> Option<Seq<(Option<Seq<char>>, Option<Seq<char>>, Seq<usize>)>>;

/// Whether node `i` is an element with local name `name`.
pub open spec fn has_tag(nodes: Seq<XmlNodeView>, i: int, name: Seq<char>) -> bool {
    nodes[i].0 == Some(name)
}

/// The first of `ids` that is an element named `name`.
pub open spec fn first_tagged(nodes: Seq<XmlNodeView>, ids: Seq<usize>, name: Seq<char>) -> Option<
    usize,
>
    decreases ids.len(),
{
    if ids.len() == 0 {
        None
    } else if has_tag(nodes, ids[0] as int, name) {
        Some(ids[0])
    } else {
        first_tagged(nodes, ids.drop_first(), name)
    }
}

/// The first of `ids` that is an element.
pub open spec fn first_element(nodes: Seq<XmlNodeView>, ids: Seq<usize>) -> Option<usize>
    decreases ids.len(),
{
    if ids.len() == 0 {
        None
    } else if nodes[ids[0] as int].0 is Some {
        Some(ids[0])
    } else {
        first_element(nodes, ids.drop_first())
    }
}

/// `roxmltree::Document::parse` with its default options.
#[verifier::external_body]
pub(crate) fn parse_xml<'a>(text: &'a str) -> (r: Option<roxmltree::Document<'a>>)
    ensures
        r is Some == xml_parse(text@) is Some,
        r matches Some(d) ==> xml_parse(text@) == Some(xml_nodes(d)),
{
    roxmltree::Document::parse(text).ok()
}

/// The number of nodes, as `Document::descendants` counts them (the root's
/// descendants are all nodes). A document has its root, at most `u32::MAX`
/// nodes (the parser's node limit), and children ids that name nodes.
#[verifier::external_body]
pub(crate) fn node_count(doc: &roxmltree::Document) -> (r: usize)
    ensures
        r == xml_nodes(*doc).len(),
        1 <= r <= u32::MAX,
        forall|i: int, k: int|
            0 <= i < r && 0 <= k < xml_nodes(*doc)[i].2.len() ==> #[trigger] xml_nodes(
                *doc,
            )[i].2[k] < r,
{
    doc.descendants().len()
}

/// `Document::root_element`: the first element child of the root, which a
/// parsed document always has.
#[verifier::external_body]
pub(crate) fn root_element(doc: &roxmltree::Document) -> (r: usize)
    ensures
        first_element(xml_nodes(*doc), xml_nodes(*doc)[0].2) == Some(r),
{
    doc.root_element().id().get_usize()
}

/// `Node::children` of node `i`, as node ids.
#[verifier::external_body]
pub(crate) fn children(doc: &roxmltree::Document, i: usize) -> (r: Vec<usize>)
    requires
        i < xml_nodes(*doc).len(),
    ensures
        r@ == xml_nodes(*doc)[i as int].2,
{
    let node = doc.get_node(roxmltree::NodeId::new(i as u32)).unwrap();
    node.children().map(|c| c.id().get_usize()).collect()
}

/// `Node::has_tag_name(name)` of node `i`: whether it is an element whose
/// local name is `name` (a plain name carries no namespace to compare).
#[verifier::external_body]
pub(crate) fn has_tag_name(doc: &roxmltree::Document, i: usize, name: &str) -> (r: bool)
    requires
        i < xml_nodes(*doc).len(),
    ensures
        r == has_tag(xml_nodes(*doc), i as int, name@),
{
    doc.get_node(roxmltree::NodeId::new(i as u32)).unwrap().has_tag_name(name)
}

/// `Node::text` of node `i`.
#[verifier::external_body]
pub(crate) fn text(doc: &roxmltree::Document, i: usize) -> (r: Option<String>)
    requires
        i < xml_nodes(*doc).len(),
    ensures
        r.deep_view() == xml_nodes(*doc)[i as int].1,
{
    doc.get_node(roxmltree::NodeId::new(i as u32)).unwrap().text().map(str::to_string)
}

/// The first of `ids` that is an element named `name`.
pub fn find_tagged(doc: &roxmltree::Document, ids: &Vec<usize>, name: &str) -> (r: Option<usize>)
    requires
        forall|k: int| 0 <= k < ids.len() ==> #[trigger] ids@[k] < xml_nodes(*doc).len(),
    ensures
        r == first_tagged(xml_nodes(*doc), ids@, name@),
{
    let ghost nodes = xml_nodes(*doc);
    let mut k: usize = 0;
    assert(ids@.skip(0) =~= ids@);
    while k < ids.len()
        invariant
            k <= ids.len(),
            nodes == xml_nodes(*doc),
            forall|j: int| 0 <= j < ids.len() ==> #[trigger] ids@[j] < nodes.len(),
            first_tagged(nodes, ids@, name@) == first_tagged(nodes, ids@.skip(k as int), name@),
        decreases ids.len() - k,
    {
        assert(ids@.skip(k as int).drop_first() =~= ids@.skip(k + 1));
        if has_tag_name(doc, ids[k], name) {
            return Some(ids[k]);
        }
        k = k + 1;
    }
    None
}

} // verus!
