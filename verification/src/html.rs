//! Link extraction: from the bytes of a page to the `href` values of its anchors.

use html5ever::tendril::TendrilSink;
use markup5ever_rcdom::{Handle, NodeData, RcDom};
use vstd::prelude::*;

verus! {

/// One attribute of an element: its local name and its value after entity decoding.
#[derive(Debug)]
pub struct Attribute {
    pub name: String,
    pub value: String,
}

/// What a node of the document tree is.
#[derive(Debug)]
pub enum NodeKind {
    Element { name: String, attrs: Vec<Attribute> },
    Text { contents: String },
    Other,
}

/// A node of the parsed document together with its children in document order.
#[derive(Debug)]
pub struct Tree {
    pub kind: NodeKind,
    pub children: Vec<Tree>,
}

/// The longest page that is handed to the markup parser. The parser keeps
/// text in buffers that hold at most 2 GiB, and decoding can make a page three
/// times as long as its bytes.
pub const MAX_PAGE_BYTES: usize = 0x2000_0000;

/// Why no links could be extracted from a page.
#[derive(Debug, Clone, Copy, PartialEq, Eq, Structural)]
pub enum ExtractError {
    /// The page is longer than [`MAX_PAGE_BYTES`] and was not handed to the
    /// markup parser.
    ParseFailed,
}

/// The character sequences held by a sequence of strings.
pub open spec fn texts(v: Seq<String>) -> Seq<Seq<char>> {
    v.map_values(|s: String| s@)
}

/// The value of the first attribute called `href`, if there is one.
pub open spec fn href_of(attrs: Seq<Attribute>) -> Option<Seq<char>>
    decreases attrs.len(),
{
    if attrs.len() == 0 {
        None
    } else if attrs[0].name@ == "href"@ {
        Some(attrs[0].value@)
    } else {
        href_of(attrs.drop_first())
    }
}

/// The link that a node carries by itself: the `href` of an `<a>` element.
pub open spec fn own_link(node: Tree) -> Seq<Seq<char>> {
    match node.kind {
        NodeKind::Element { name, attrs } => if name@ == "a"@ {
            match href_of(attrs@) {
                Some(target) => seq![target],
                None => seq![],
            }
        } else {
            seq![]
        },
        _ => seq![],
    }
}

/// The links of a subtree in document order: the node's own link, then those of
/// its children from first to last.
pub open spec fn links_in(node: Tree) -> Seq<Seq<char>>
    decreases node, 0nat,
{
    own_link(node) + links_among(node.children@, node.children@.len())
}

/// The links of the first `upto` trees of a forest, in document order.
pub open spec fn links_among(nodes: Seq<Tree>, upto: nat) -> Seq<Seq<char>>
    decreases nodes, upto,
{
    if upto == 0 || upto > nodes.len() {
        seq![]
    } else {
        links_among(nodes, (upto - 1) as nat) + links_in(nodes[upto - 1])
    }
}

/// The document tree that the markup parser builds from a byte stream.
pub uninterp spec fn parsed_document(source: Seq<u8>) -> Tree;

/// What extraction makes of a page: the links of its document tree, unless the
/// page is too long to be parsed.
pub open spec fn page_links(source: Seq<u8>) -> Option<Seq<Seq<char>>> {
    if source.len() > MAX_PAGE_BYTES {
        None
    } else {
        Some(links_in(parsed_document(source)))
    }
}

/// A node of the tree that `markup5ever_rcdom` builds. Nothing is known of it
/// here; [`tree_of`] reads it.
#[verifier::external_type_specification]
#[verifier::external_body]
pub struct ExDomNode(markup5ever_rcdom::Node);

/// Copies a node of `markup5ever_rcdom` and everything below it into a [`Tree`].
/// Element and attribute names are the local names; the children are those of
/// the node's `children` list, in its order. Nothing is claimed of the result.
#[verifier::external_body]
fn tree_of(handle: &Handle) -> Tree {
    let kind = match &handle.data {
        NodeData::Element { name, attrs, .. } => NodeKind::Element {
            name: name.local.to_string(),
            attrs: attrs.borrow().iter().map(|a| Attribute {
                name: a.name.local.to_string(),
                value: a.value.to_string(),
            }).collect(),
        },
        NodeData::Text { contents } => NodeKind::Text { contents: contents.borrow().to_string() },
        _ => NodeKind::Other,
    };
    Tree { kind, children: handle.children.borrow().iter().map(tree_of).collect() }
}

/// Runs `html5ever::parse_document` over the bytes, decoded as UTF-8 with
/// replacement, and hands back the tree whose root is the document node. The
/// contract claims two things. There is a tree: the parser recovers from
/// every markup error, and `read_from` fails only where reading does, which
/// reading from a slice never does. And the tree is a function of the bytes,
/// which the contract names [`parsed_document`]. Longer input is kept out
/// because the parser's buffers panic when they outgrow 2 GiB.
#[verifier::external_body]
fn parse_html(source: &[u8]) -> (res: Option<Tree>)
    requires
        source.len() <= MAX_PAGE_BYTES,
    ensures
        res == Some(parsed_document(source@)),
{
    let mut reader = source;
    let parsed = html5ever::parse_document(RcDom::default(), Default::default())
        .from_utf8()
        .read_from(&mut reader);
    parsed.ok().map(|dom| tree_of(&dom.document))
}

/// Finds the value of the first `href` attribute.
pub fn get_url(attrs: &[Attribute]) -> (res: Option<&str>)
    ensures
        match res {
            Some(value) => href_of(attrs@) == Some(value@),
            None => href_of(attrs@) is None,
        },
{
    let href = "href".to_owned();
    let mut i: usize = 0;
    assert(attrs@.subrange(0, attrs.len() as int) == attrs@);
    while i < attrs.len()
        invariant
            i <= attrs.len(),
            href@ == "href"@,
            href_of(attrs@) == href_of(attrs@.subrange(i as int, attrs.len() as int)),
        decreases attrs.len() - i,
    {
        let ghost rest = attrs@.subrange(i as int, attrs.len() as int);
        assert(rest.drop_first() == attrs@.subrange(i + 1, attrs.len() as int));
        if attrs[i].name == href {
            return Some(attrs[i].value.as_str());
        }
        i += 1;
    }
    None
}

/// Appends the links of the subtree below `node` to `links`, in document order.
pub fn walk(node: &Tree, links: &mut Vec<String>)
    ensures
        texts(final(links)@) == texts(old(links)@) + links_in(*node),
    decreases node,
{
    let anchor = "a".to_owned();
    match &node.kind {
        NodeKind::Element { name, attrs } => {
            if *name == anchor {
                match get_url(attrs.as_slice()) {
                    Some(target) => {
                        links.push(target.to_owned());
                    },
                    None => {},
                }
            }
        },
        _ => {},
    }
    assert(texts(links@) == texts(old(links)@) + own_link(*node));
    let mut i: usize = 0;
    while i < node.children.len()
        invariant
            i <= node.children.len(),
            texts(links@) == texts(old(links)@) + own_link(*node) + links_among(
                node.children@,
                i as nat,
            ),
        decreases node.children.len() - i,
    {
        walk(&node.children[i], links);
        i += 1;
    }
}

/// Collects the links of a whole document.
pub fn find_links(root: &Tree) -> (links: Vec<String>)
    ensures
        texts(links@) == links_in(*root),
{
    let mut links = Vec::new();
    walk(root, &mut links);
    links
}

/// Parses a page and returns the raw `href` value of every anchor in document
/// order. Markup errors are recovered from: every page of at most
/// [`MAX_PAGE_BYTES`] bytes gives a list, which is empty where the page holds
/// no anchor. A longer page is not parsed.
pub fn process_html(source: &[u8]) -> (res: Result<Vec<String>, ExtractError>)
    ensures
        match page_links(source@) {
            Some(links) => res is Ok && texts(res->Ok_0@) == links,
            None => res == Err::<Vec<String>, ExtractError>(ExtractError::ParseFailed),
        },
{
    if source.len() > MAX_PAGE_BYTES {
        return Err(ExtractError::ParseFailed);
    }
    match parse_html(source) {
        Some(root) => Ok(find_links(&root)),
        None => Err(ExtractError::ParseFailed),
    }
}

} // verus!
