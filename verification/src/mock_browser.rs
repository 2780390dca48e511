//! A simulated browser page: a small fixed DOM tree, attribute edits with
//! a mutation log, text search with paged results, and canned style, box
//! and layer data.

use vstd::prelude::*;
use crate::dom::{
    NodeId, NodeType, Node, NodeInfo, attribute_value, copy_node, find_pair, first_pair,
    get_attribute_value, info, lemma_first_pair_from, matches_selector, node_matches_selector,
    string_views,
};
use crate::str_map::StrMap;
use crate::text::{
    chars_contain, chars_of, concat_str, contains_seq, decimal_digits, decimal_string, lowercase,
    owned, to_lower,
};

verus! {

/// What a mutation changed.
#[derive(Debug, Clone, Copy, PartialEq, Eq, Structural)]
pub enum MutationType {
    ChildListAdded,
    ChildListRemoved,
    AttributeModified,
    CharacterDataModified,
    SubtreeModified,
}

/// A change to the DOM.
#[derive(Debug)]
pub struct MutationRecord {
    pub mutation_type: MutationType,
    pub target_node_id: NodeId,
    pub added_node_ids: Option<Vec<NodeId>>,
    pub removed_node_ids: Option<Vec<NodeId>>,
    pub previous_sibling_id: Option<NodeId>,
    pub attribute_name: Option<String>,
    pub old_value: Option<String>,
}

/// One computed CSS property.
#[derive(Debug)]
pub struct CssProperty {
    pub name: String,
    pub value: String,
    pub important: Option<bool>,
    pub implicit: Option<bool>,
    pub text: Option<String>,
    pub parsed_ok: Option<bool>,
    pub disabled: Option<bool>,
}

/// The computed style of a node.
#[derive(Debug)]
pub struct ComputedStyles {
    pub properties: Vec<CssProperty>,
}

/// The four corners of a box, clockwise from the top left, as x, y pairs.
pub type Quad = [i64; 8];

/// The shape that content flows around, in whole pixels; the paths are
/// JSON texts.
#[derive(Debug)]
pub struct ShapeOutsideInfo {
    pub bounds: Quad,
    pub shape: Option<Vec<String>>,
    pub margin_shape: Option<Vec<String>>,
}

/// The boxes of a node, in whole pixels.
#[derive(Debug)]
pub struct BoxModel {
    pub content: Quad,
    pub padding: Quad,
    pub border: Quad,
    pub margin: Quad,
    pub width: i64,
    pub height: i64,
    pub shape_outside: Option<ShapeOutsideInfo>,
}

/// A compositing layer, in whole pixels.
#[derive(Debug)]
pub struct LayerInfo {
    pub layer_id: String,
    pub parent_layer_id: Option<String>,
    pub node_id: Option<NodeId>,
    pub offset_x: i64,
    pub offset_y: i64,
    pub width: i64,
    pub height: i64,
    /// The layer's transform matrix, as the bits of its floats.
    pub transform: Option<Vec<u64>>,
    pub compositing_reasons: Vec<String>,
    pub draws_content: bool,
}

// ---------------------------------------------------------------------------
// The tree
// ---------------------------------------------------------------------------

/// The child ids of node `id` (none for an unknown id).
pub open spec fn children_of(lists: Seq<Seq<NodeId>>, id: int) -> Seq<NodeId> {
    if 1 <= id <= lists.len() {
        lists[id - 1]
    } else {
        Seq::empty()
    }
}

/// Whether `t` is node `id` with its descendants down to `depth` levels:
/// the node's information, and below it (when `depth` is positive and it
/// has children) the trees of its children in order.
pub open spec fn is_subtree(t: Node, nodes: Seq<NodeInfo>, lists: Seq<Seq<NodeId>>, id: int, depth: int) -> bool
    decreases depth,
{
    &&& 1 <= id <= nodes.len()
    &&& info(t) == nodes[id - 1]
    &&& if depth > 0 && children_of(lists, id).len() > 0 {
        t.children matches Some(cs) && cs@.len() == children_of(lists, id).len() && forall|k: int|
            0 <= k < cs@.len() ==> is_subtree(
                #[trigger] cs@[k],
                nodes,
                lists,
                children_of(lists, id)[k].0 as int,
                depth - 1,
            )
    } else {
        t.children is None
    }
}

/// The nodes under `x` in the order a depth-first walk with a stack visits
/// them: `x`, then the subtrees of its children from the last child to the
/// first.
pub open spec fn subtree_order(lists: Seq<Seq<NodeId>>, x: int) -> Seq<NodeId>
    decreases lists.len() + 1 - x, children_of(lists, x).len() + 1,
{
    seq![NodeId(x as u32)] + children_order(lists, x, children_of(lists, x).len() as int)
}

/// The subtrees of the first `k` children of `x`, last first.
pub open spec fn children_order(lists: Seq<Seq<NodeId>>, x: int, k: int) -> Seq<NodeId>
    decreases lists.len() + 1 - x, k,
{
    if k <= 0 || k > children_of(lists, x).len() {
        Seq::empty()
    } else {
        let c = children_of(lists, x)[k - 1].0 as int;
        if x < c <= lists.len() {
            subtree_order(lists, c) + children_order(lists, x, k - 1)
        } else {
            children_order(lists, x, k - 1)
        }
    }
}

/// The descendants of a node, in depth-first order as a stack walk gives
/// them.
pub open spec fn descendants(lists: Seq<Seq<NodeId>>, x: int) -> Seq<NodeId> {
    children_order(lists, x, children_of(lists, x).len() as int)
}

/// Whether a search query (lowercased) occurs in a node: in its name, its
/// value or one of its attribute names or values, each lowercased.
pub open spec fn search_hit(n: NodeInfo, lower_query: Seq<char>) -> bool {
    ||| contains_seq(lowercase(n.name), lower_query)
    ||| (n.value matches Some(v) && contains_seq(lowercase(v), lower_query))
    ||| (n.attributes matches Some(a) && attribute_hit(a, lower_query))
}

/// Whether a (lowercased) query occurs in some lowercased attribute name or
/// value.
pub open spec fn attribute_hit(attrs: Seq<Seq<char>>, lower_query: Seq<char>) -> bool {
    exists|k: int| 0 <= k < attrs.len() && contains_seq(lowercase(#[trigger] attrs[k]), lower_query)
}

/// The ids of the nodes that match a selector, in id order.
pub open spec fn selector_matches(nodes: Seq<NodeInfo>, selector: Seq<char>) -> Seq<NodeId>
    decreases nodes.len(),
{
    if nodes.len() == 0 {
        Seq::empty()
    } else {
        let rest = selector_matches(nodes.drop_last(), selector);
        if matches_selector(nodes.last(), selector) {
            rest.push(NodeId(nodes.last().id))
        } else {
            rest
        }
    }
}

/// The ids of the nodes that contain a lowercased query, in id order.
pub open spec fn search_matches(nodes: Seq<NodeInfo>, lower_query: Seq<char>) -> Seq<NodeId>
    decreases nodes.len(),
{
    if nodes.len() == 0 {
        Seq::empty()
    } else {
        let rest = search_matches(nodes.drop_last(), lower_query);
        if search_hit(nodes.last(), lower_query) {
            rest.push(NodeId(nodes.last().id))
        } else {
            rest
        }
    }
}

/// The page of results `from..min(to, len)` (empty when that is empty).
pub open spec fn result_page(results: Seq<NodeId>, from: int, to: int) -> Seq<NodeId> {
    let end = if to < results.len() { to } else { results.len() as int };
    if from < end {
        results.subrange(from, end)
    } else {
        Seq::empty()
    }
}

/// The attribute list after setting `name` to `value`: the value after the
/// first occurrence of the name is replaced, or the pair is appended.
pub open spec fn attrs_after_set(attrs: Seq<Seq<char>>, name: Seq<char>, value: Seq<char>) -> Seq<Seq<char>> {
    match first_pair(attrs, name) {
        Some(i) => attrs.update(i + 1, value),
        None => attrs.push(name).push(value),
    }
}

/// The attribute list after removing the first pair named `name`.
pub open spec fn attrs_after_remove(attrs: Seq<Seq<char>>, name: Seq<char>) -> Seq<Seq<char>> {
    match first_pair(attrs, name) {
        Some(i) => attrs.subrange(0, i) + attrs.subrange(i + 2, attrs.len() as int),
        None => attrs,
    }
}

/// A log of at most a hundred records after one more.
pub open spec fn logged(log: Seq<MutationRecord>, r: MutationRecord) -> Seq<MutationRecord> {
    if log.len() < 100 {
        log.push(r)
    } else {
        log.drop_first().push(r)
    }
}

/// An element's information.
pub open spec fn element_info(
    id: u32,
    name: Seq<char>,
    local: Seq<char>,
    count: u32,
    attrs: Seq<Seq<char>>,
) -> NodeInfo {
    NodeInfo {
        id,
        kind: NodeType::Element,
        name,
        local_name: Some(local),
        value: None,
        child_count: Some(count),
        attributes: Some(attrs),
    }
}

/// The page every simulated browser starts with:
/// `#document > HTML[lang=en] > (HEAD > TITLE, BODY.main-body > (DIV#container.wrapper > SPAN.text-content > "Hello, World!", DIV#footer))`.
pub open spec fn test_dom(nodes: Seq<NodeInfo>, lists: Seq<Seq<NodeId>>) -> bool {
    &&& nodes.len() == 9
    &&& nodes[0] == (NodeInfo {
        id: 1,
        kind: NodeType::Document,
        name: "#document"@,
        local_name: None,
        value: None,
        child_count: Some(1u32),
        attributes: None,
    })
    &&& nodes[1] == element_info(2, "HTML"@, "html"@, 2, seq!["lang"@, "en"@])
    &&& nodes[2] == element_info(3, "HEAD"@, "head"@, 1, Seq::empty())
    &&& nodes[3] == element_info(4, "TITLE"@, "title"@, 1, Seq::empty())
    &&& nodes[4] == element_info(5, "BODY"@, "body"@, 2, seq!["class"@, "main-body"@])
    &&& nodes[5] == element_info(6, "DIV"@, "div"@, 1, seq!["id"@, "container"@, "class"@, "wrapper"@])
    &&& nodes[6] == element_info(7, "SPAN"@, "span"@, 1, seq!["class"@, "text-content"@])
    &&& nodes[7] == (NodeInfo {
        id: 8,
        kind: NodeType::Text,
        name: "#text"@,
        local_name: None,
        value: Some("Hello, World!"@),
        child_count: None,
        attributes: None,
    })
    &&& nodes[8] == element_info(9, "DIV"@, "div"@, 0, seq!["id"@, "footer"@])
    &&& lists == seq![
        seq![NodeId(2)],
        seq![NodeId(3), NodeId(5)],
        seq![NodeId(4)],
        Seq::<NodeId>::empty(),
        seq![NodeId(6), NodeId(9)],
        seq![NodeId(7)],
        seq![NodeId(8)],
        Seq::<NodeId>::empty(),
        Seq::<NodeId>::empty(),
    ]
}

fn pair(name: &str, value: &str) -> (r: Vec<String>)
    ensures
        string_views(r@) == seq![name@, value@],
{
    let mut r: Vec<String> = Vec::new();
    r.push(owned(name));
    r.push(owned(value));
    proof {
        assert(string_views(r@) =~= seq![name@, value@]);
    }
    r
}

fn two_pairs(n1: &str, v1: &str, n2: &str, v2: &str) -> (r: Vec<String>)
    ensures
        string_views(r@) == seq![n1@, v1@, n2@, v2@],
{
    let mut r: Vec<String> = Vec::new();
    r.push(owned(n1));
    r.push(owned(v1));
    r.push(owned(n2));
    r.push(owned(v2));
    proof {
        assert(string_views(r@) =~= seq![n1@, v1@, n2@, v2@]);
    }
    r
}

fn ids1(a: u32) -> (r: Vec<NodeId>)
    ensures
        r@ == seq![NodeId(a)],
{
    let mut r: Vec<NodeId> = Vec::new();
    r.push(NodeId(a));
    proof {
        assert(r@ =~= seq![NodeId(a)]);
    }
    r
}

fn ids2(a: u32, b: u32) -> (r: Vec<NodeId>)
    ensures
        r@ == seq![NodeId(a), NodeId(b)],
{
    let mut r: Vec<NodeId> = Vec::new();
    r.push(NodeId(a));
    r.push(NodeId(b));
    proof {
        assert(r@ =~= seq![NodeId(a), NodeId(b)]);
    }
    r
}

fn element(id: u32, name: &str, local: &str, count: u32, attrs: Vec<String>) -> (n: Node)
    ensures
        info(n) == element_info(id, name@, local@, count, string_views(attrs@)),
        n.children is None,
{
    Node {
        node_id: NodeId(id),
        node_type: NodeType::Element,
        node_name: owned(name),
        local_name: Some(owned(local)),
        node_value: None,
        child_node_count: Some(count),
        children: None,
        attributes: Some(attrs),
    }
}

// ---------------------------------------------------------------------------
// The browser
// ---------------------------------------------------------------------------

/// The simulated browser.
#[derive(Debug)]
pub struct MockBrowser {
    /// Node `i` has id `i + 1`; stored nodes carry no children.
    nodes: Vec<Node>,
    /// The child ids of node `i + 1`.
    child_lists: Vec<Vec<NodeId>>,
    next_node_id: u32,
    next_search_id: u64,
    searches: StrMap<Vec<NodeId>>,
    listening: bool,
    mutations: Vec<MutationRecord>,
}

impl MockBrowser {
    /// The node table.
    pub closed spec fn node_infos(&self) -> Seq<NodeInfo> {
        self.nodes@.map_values(|n: Node| info(n))
    }

    /// The child lists, by node.
    pub closed spec fn lists(&self) -> Seq<Seq<NodeId>> {
        self.child_lists@.map_values(|l: Vec<NodeId>| l@)
    }

    /// The stored searches.
    pub closed spec fn search_map(&self) -> Map<Seq<char>, Seq<NodeId>> {
        self.searches@.map_values(|v: Vec<NodeId>| v@)
    }

    /// The counter behind search ids.
    pub closed spec fn search_counter(&self) -> u64 {
        self.next_search_id
    }

    /// Whether mutations are being logged.
    pub closed spec fn is_listening(&self) -> bool {
        self.listening
    }

    /// The logged mutations.
    pub closed spec fn mutation_log(&self) -> Seq<MutationRecord> {
        self.mutations@
    }

    /// The browser's invariant: node `i` has id `i + 1` and no stored
    /// children, attribute lists come in pairs, and children come after
    /// their parent.
    pub closed spec fn wf(&self) -> bool {
        &&& self.nodes@.len() == self.child_lists@.len()
        &&& self.nodes@.len() < 0x1000_0000
        &&& self.mutations@.len() <= 100
        &&& forall|i: int| 0 <= i < self.nodes@.len() ==> {
            &&& (#[trigger] self.nodes@[i]).node_id.0 == i + 1
            &&& self.nodes@[i].children is None
            &&& (self.nodes@[i].attributes matches Some(a) ==> a@.len() % 2 == 0)
        }
        &&& forall|i: int, k: int|
            0 <= i < self.child_lists@.len() && 0 <= k < self.child_lists@[i]@.len() ==> i + 1 < (
            #[trigger] self.child_lists@[i]@[k]).0 <= self.nodes@.len()
    }

    /// A well-formed page has fewer than 2^28 nodes.
    pub proof fn lemma_size(&self)
        requires
            self.wf(),
        ensures
            self.node_infos().len() < 0x1000_0000,
    {
    }

    /// A browser showing the test page, with no searches and no mutation
    /// log.
    pub fn new() -> (b: Self)
        ensures
            b.wf(),
            fresh_page(b),
            test_dom(b.node_infos(), b.lists()),
            b.search_map() == Map::<Seq<char>, Seq<NodeId>>::empty(),
            b.search_counter() == 1,
            !b.is_listening(),
            b.mutation_log().len() == 0,
    {
        let mut b = MockBrowser {
            nodes: Vec::new(),
            child_lists: Vec::new(),
            next_node_id: 1,
            next_search_id: 1,
            searches: StrMap::new(),
            listening: false,
            mutations: Vec::new(),
        };
        b.initialize_test_dom();
        proof {
            assert(b.searches@.map_values(|v: Vec<NodeId>| v@) =~= Map::<Seq<char>, Seq<NodeId>>::empty());
        }
        b
    }

    /// Builds the test page.
    fn initialize_test_dom(&mut self)
        requires
            old(self).mutations@.len() <= 100,
        ensures
            test_dom(final(self).node_infos(), final(self).lists()),
            final(self).wf(),
            final(self).next_node_id == 10,
            final(self).searches == old(self).searches,
            final(self).next_search_id == old(self).next_search_id,
            final(self).listening == old(self).listening,
            final(self).mutations == old(self).mutations,
    {
        let mut nodes: Vec<Node> = Vec::new();
        nodes.push(
            Node {
                node_id: NodeId(1),
                node_type: NodeType::Document,
                node_name: owned("#document"),
                local_name: None,
                node_value: None,
                child_node_count: Some(1),
                children: None,
                attributes: None,
            },
        );
        nodes.push(element(2, "HTML", "html", 2, pair("lang", "en")));
        nodes.push(element(3, "HEAD", "head", 1, Vec::new()));
        nodes.push(element(4, "TITLE", "title", 1, Vec::new()));
        nodes.push(element(5, "BODY", "body", 2, pair("class", "main-body")));
        nodes.push(element(6, "DIV", "div", 1, two_pairs("id", "container", "class", "wrapper")));
        nodes.push(element(7, "SPAN", "span", 1, pair("class", "text-content")));
        nodes.push(
            Node {
                node_id: NodeId(8),
                node_type: NodeType::Text,
                node_name: owned("#text"),
                local_name: None,
                node_value: Some(owned("Hello, World!")),
                child_node_count: None,
                children: None,
                attributes: None,
            },
        );
        nodes.push(element(9, "DIV", "div", 0, pair("id", "footer")));
        let mut lists: Vec<Vec<NodeId>> = Vec::new();
        lists.push(ids1(2));
        lists.push(ids2(3, 5));
        lists.push(ids1(4));
        lists.push(Vec::new());
        lists.push(ids2(6, 9));
        lists.push(ids1(7));
        lists.push(ids1(8));
        lists.push(Vec::new());
        lists.push(Vec::new());
        self.nodes = nodes;
        self.child_lists = lists;
        self.next_node_id = 10;
        proof {
            let n = self.node_infos();
            let l = self.lists();
            assert(n.len() == 9);
            assert forall|i: int| 0 <= i < 9 implies #[trigger] n[i] == info(self.nodes@[i]) by {}
            assert forall|i: int| 0 <= i < 9 implies #[trigger] l[i] == self.child_lists@[i]@ by {}
            assert(string_views(Seq::<String>::empty()) =~= Seq::<Seq<char>>::empty());
            assert(l =~= seq![
                seq![NodeId(2)],
                seq![NodeId(3), NodeId(5)],
                seq![NodeId(4)],
                Seq::<NodeId>::empty(),
                seq![NodeId(6), NodeId(9)],
                seq![NodeId(7)],
                seq![NodeId(8)],
                Seq::<NodeId>::empty(),
                Seq::<NodeId>::empty(),
            ]);
            assert forall|i: int| 0 <= i < self.nodes@.len() implies (#[trigger] self.nodes@[i]).node_id.0 == i + 1 by {
                assert(n[i] == info(self.nodes@[i]));
            }
            assert forall|i: int| 0 <= i < self.nodes@.len() implies (#[trigger] self.nodes@[i]).children is None by {
                if i == 0 {
                } else if i == 1 {
                } else if i == 2 {
                } else if i == 3 {
                } else if i == 4 {
                } else if i == 5 {
                } else if i == 6 {
                } else if i == 7 {
                } else {
                }
            }
            assert forall|i: int| 0 <= i < self.nodes@.len() implies ((#[trigger] self.nodes@[i]).attributes matches Some(a) ==> a@.len() % 2 == 0) by {
                assert(n[i] == info(self.nodes@[i]));
                if self.nodes@[i].attributes is Some {
                    let a = self.nodes@[i].attributes.unwrap();
                    assert(n[i].attributes == Some(string_views(a@)));
                    assert(string_views(a@).len() == a@.len());
                    assert(n[i].attributes.unwrap().len() % 2 == 0);
                }
                if i == 0 {
                } else if i == 1 {
                } else if i == 2 {
                } else if i == 3 {
                } else if i == 4 {
                } else if i == 5 {
                } else if i == 6 {
                } else if i == 7 {
                } else {
                }
            }
            assert forall|i: int, k: int|
                0 <= i < self.child_lists@.len() && 0 <= k < self.child_lists@[i]@.len() implies i + 1 < (
                #[trigger] self.child_lists@[i]@[k]).0 <= self.nodes@.len() by {
                assert(l[i] == self.child_lists@[i]@);
                if i == 0 {
                } else if i == 1 {
                } else if i == 2 {
                } else if i == 4 {
                } else if i == 5 {
                } else if i == 6 {
                }
            }
        }
    }

    /// Whether a node exists.
    pub fn node_exists(&self, node_id: NodeId) -> (r: bool)
        ensures
            r == (1 <= node_id.0 <= self.node_infos().len()),
    {
        node_id.0 >= 1 && (node_id.0 as usize) <= self.nodes.len()
    }

    /// A node, without children.
    pub fn get_node(&self, node_id: NodeId) -> (r: Option<Node>)
        requires
            self.wf(),
        ensures
            1 <= node_id.0 <= self.node_infos().len() ==> (r matches Some(n) && info(n)
                == self.node_infos()[node_id.0 - 1] && n.children is None),
            !(1 <= node_id.0 <= self.node_infos().len()) ==> r is None,
    {
        if node_id.0 >= 1 && (node_id.0 as usize) <= self.nodes.len() {
            let i = (node_id.0 - 1) as usize;
            assert(self.node_infos()[i as int] == info(self.nodes@[i as int]));
            Some(copy_node(&self.nodes[i]))
        } else {
            None
        }
    }

    /// A node with its descendants down to `depth` levels.
    pub fn get_node_with_children(&self, node_id: NodeId, depth: u32) -> (r: Option<Node>)
        requires
            self.wf(),
        ensures
            1 <= node_id.0 <= self.node_infos().len() ==> (r matches Some(t) && is_subtree(
                t,
                self.node_infos(),
                self.lists(),
                node_id.0 as int,
                depth as int,
            )),
            !(1 <= node_id.0 <= self.node_infos().len()) ==> r is None,
        decreases depth,
    {
        if !(node_id.0 >= 1 && (node_id.0 as usize) <= self.nodes.len()) {
            return None;
        }
        let i = (node_id.0 - 1) as usize;
        let ghost n = self.node_infos();
        let ghost l = self.lists();
        assert(n[i as int] == info(self.nodes@[i as int]));
        let mut node = copy_node(&self.nodes[i]);
        if depth > 0 {
            let list = &self.child_lists[i];
            assert(l[i as int] == list@);
            let mut children: Vec<Node> = Vec::new();
            let mut k: usize = 0;
            while k < list.len()
                invariant
                    self.wf(),
                    n == self.node_infos(),
                    l == self.lists(),
                    depth > 0,
                    0 <= i < n.len(),
                    list@ == l[i as int],
                    list@ == children_of(l, i + 1),
                    k <= list@.len(),
                    children@.len() == k,
                    forall|j: int| 0 <= j < k ==> is_subtree(
                        #[trigger] children@[j],
                        n,
                        l,
                        list@[j].0 as int,
                        depth - 1,
                    ),
                decreases list@.len() - k,
            {
                let c = list[k];
                assert(i + 1 < l[i as int][k as int].0 <= n.len());
                match self.get_node_with_children(c, depth - 1) {
                    Some(t) => {
                        children.push(t);
                    },
                    None => {},
                }
                k = k + 1;
            }
            if children.len() > 0 {
                node.children = Some(children);
            }
        }
        Some(node)
    }

    /// The document with no children filled in.
    pub fn get_document(&self) -> (r: Option<Node>)
        requires
            self.wf(),
        ensures
            self.node_infos().len() >= 1 ==> (r matches Some(t) && is_subtree(
                t,
                self.node_infos(),
                self.lists(),
                1,
                0,
            )),
            self.node_infos().len() == 0 ==> r is None,
    {
        self.get_node_with_children(NodeId(1), 0)
    }

    /// The child ids of a node (none for an unknown node).
    pub fn get_children(&self, parent_id: NodeId) -> (r: Vec<NodeId>)
        requires
            self.wf(),
        ensures
            r@ == children_of(self.lists(), parent_id.0 as int),
    {
        if parent_id.0 >= 1 && (parent_id.0 as usize) <= self.child_lists.len() {
            let list = &self.child_lists[(parent_id.0 - 1) as usize];
            assert(self.lists()[parent_id.0 - 1] == list@);
            let mut r: Vec<NodeId> = Vec::new();
            let mut k: usize = 0;
            while k < list.len()
                invariant
                    k <= list@.len(),
                    r@ == list@.take(k as int),
                decreases list@.len() - k,
            {
                r.push(list[k]);
                k = k + 1;
                proof {
                    assert(r@ =~= list@.take(k as int));
                }
            }
            proof {
                assert(list@.take(k as int) =~= list@);
            }
            r
        } else {
            Vec::new()
        }
    }

    /// Appends the stack-walk order of the subtree of `x`.
    fn collect_subtree(&self, x: u32, out: &mut Vec<NodeId>)
        requires
            self.wf(),
            1 <= x <= self.lists().len(),
        ensures
            final(out)@ == old(out)@ + subtree_order(self.lists(), x as int),
        decreases self.lists().len() + 1 - x,
    {
        let ghost l = self.lists();
        let ghost start = out@;
        out.push(NodeId(x));
        let list = &self.child_lists[(x - 1) as usize];
        assert(l[x - 1] == list@);
        let ghost total = children_order(l, x as int, list@.len() as int);
        let mut k: usize = list.len();
        let ghost mut done: Seq<NodeId> = Seq::empty();
        while k > 0
            invariant
                self.wf(),
                l == self.lists(),
                1 <= x <= l.len(),
                list@ == children_of(l, x as int),
                k <= list@.len(),
                total == children_order(l, x as int, list@.len() as int),
                out@ == start + seq![NodeId(x)] + done,
                done + children_order(l, x as int, k as int) == total,
            decreases k,
        {
            let c = list[k - 1];
            assert(x < c.0 <= l.len()) by {
                assert(x - 1 + 1 < l[x - 1][k - 1].0);
            }
            let ghost before = out@;
            self.collect_subtree(c.0, out);
            proof {
                let sub = subtree_order(l, c.0 as int);
                assert(children_order(l, x as int, k as int) == sub + children_order(l, x as int, k - 1));
                assert(done + sub + children_order(l, x as int, k - 1) =~= total);
                done = done + sub;
                assert(out@ =~= start + seq![NodeId(x)] + done);
            }
            k = k - 1;
        }
        proof {
            assert(done =~= total);
            assert(subtree_order(l, x as int) == seq![NodeId(x)] + total);
            assert(out@ =~= start + subtree_order(l, x as int));
        }
    }

    /// The descendants of a node, in the order a depth-first walk with a
    /// stack visits them (last child first).
    pub fn get_descendants(&self, node_id: NodeId) -> (r: Vec<NodeId>)
        requires
            self.wf(),
        ensures
            r@ == descendants(self.lists(), node_id.0 as int),
    {
        let mut out: Vec<NodeId> = Vec::new();
        if !(node_id.0 >= 1 && (node_id.0 as usize) <= self.child_lists.len()) {
            return out;
        }
        let x = node_id.0;
        let ghost l = self.lists();
        let list = &self.child_lists[(x - 1) as usize];
        assert(l[x - 1] == list@);
        let ghost total = children_order(l, x as int, list@.len() as int);
        let mut k: usize = list.len();
        let ghost mut done: Seq<NodeId> = Seq::empty();
        while k > 0
            invariant
                self.wf(),
                l == self.lists(),
                1 <= x <= l.len(),
                list@ == children_of(l, x as int),
                k <= list@.len(),
                total == children_order(l, x as int, list@.len() as int),
                out@ == done,
                done + children_order(l, x as int, k as int) == total,
            decreases k,
        {
            let c = list[k - 1];
            assert(x < c.0 <= l.len()) by {
                assert(x - 1 + 1 < l[x - 1][k - 1].0);
            }
            self.collect_subtree(c.0, &mut out);
            proof {
                let sub = subtree_order(l, c.0 as int);
                assert(children_order(l, x as int, k as int) == sub + children_order(l, x as int, k - 1));
                assert(done + sub + children_order(l, x as int, k - 1) =~= total);
                done = done + sub;
            }
            k = k - 1;
        }
        proof {
            assert(done =~= total);
        }
        out
    }

    /// The ids of the elements that match a simplified selector, in id
    /// order (the whole page is searched, whatever the root).
    pub fn query_selector_all(&self, root_id: NodeId, selector: &str) -> (r: Vec<NodeId>)
        requires
            self.wf(),
        ensures
            r@ == selector_matches(self.node_infos(), selector@),
    {
        let ghost n = self.node_infos();
        let mut r: Vec<NodeId> = Vec::new();
        let mut i: usize = 0;
        while i < self.nodes.len()
            invariant
                self.wf(),
                n == self.node_infos(),
                i <= n.len(),
                r@ == selector_matches(n.take(i as int), selector@),
            decreases n.len() - i,
        {
            proof {
                assert(n.take(i + 1).drop_last() =~= n.take(i as int));
                assert(n.take(i + 1).last() == n[i as int]);
            }
            let node = &self.nodes[i];
            assert(n[i as int] == info(*node));
            if node_matches_selector(node, selector) {
                r.push(node.node_id);
            }
            i = i + 1;
        }
        proof {
            assert(n.take(i as int) =~= n);
        }
        r
    }

    /// The first element matching a simplified selector.
    pub fn query_selector(&self, root_id: NodeId, selector: &str) -> (r: Option<NodeId>)
        requires
            self.wf(),
        ensures
            ({
                let all = selector_matches(self.node_infos(), selector@);
                if all.len() > 0 {
                    r == Some(all[0])
                } else {
                    r is None
                }
            }),
    {
        let all = self.query_selector_all(root_id, selector);
        if all.len() > 0 {
            Some(all[0])
        } else {
            None
        }
    }

    /// Starts logging mutations (the log keeps the last hundred).
    pub fn subscribe_mutations(&mut self)
        requires
            old(self).wf(),
        ensures
            final(self).wf(),
            final(self).is_listening(),
            final(self).node_infos() == old(self).node_infos(),
            final(self).lists() == old(self).lists(),
            final(self).mutation_log() == old(self).mutation_log(),
            final(self).search_map() == old(self).search_map(),
    {
        self.listening = true;
    }

    /// Hands out and clears the mutation log.
    pub fn take_mutations(&mut self) -> (r: Vec<MutationRecord>)
        requires
            old(self).wf(),
        ensures
            final(self).wf(),
            r@ == old(self).mutation_log(),
            final(self).mutation_log().len() == 0,
            final(self).is_listening() == old(self).is_listening(),
            final(self).node_infos() == old(self).node_infos(),
            final(self).lists() == old(self).lists(),
            final(self).search_map() == old(self).search_map(),
    {
        let mut r: Vec<MutationRecord> = Vec::new();
        std::mem::swap(&mut r, &mut self.mutations);
        r
    }

    /// Logs a mutation while listening.
    fn emit(&mut self, record: MutationRecord)
        requires
            old(self).wf(),
        ensures
            final(self).wf(),
            final(self).mutations@ == (if old(self).listening {
                logged(old(self).mutations@, record)
            } else {
                old(self).mutations@
            }),
            final(self).nodes == old(self).nodes,
            final(self).child_lists == old(self).child_lists,
            final(self).searches == old(self).searches,
            final(self).next_search_id == old(self).next_search_id,
            final(self).listening == old(self).listening,
            final(self).next_node_id == old(self).next_node_id,
    {
        if self.listening {
            if self.mutations.len() >= 100 {
                self.mutations.remove(0);
            }
            self.mutations.push(record);
            proof {
                if old(self).mutations@.len() >= 100 {
                    assert(self.mutations@ =~= old(self).mutations@.drop_first().push(record));
                }
            }
        }
    }

    /// Sets an attribute of an element (replacing the first occurrence of
    /// the name, or appending the pair) and logs the change with the old
    /// value. Refused for a missing node and for a non-element.
    pub fn set_attribute(&mut self, node_id: NodeId, name: &str, value: &str) -> (r: Result<(), String>)
        requires
            old(self).wf(),
        ensures
            final(self).wf(),
            !(1 <= node_id.0 <= old(self).node_infos().len()) ==> (r matches Err(e) && e@ == "Node "@
                + decimal_digits(node_id.0 as nat) + " not found"@ && *final(self) == *old(self)),
            1 <= node_id.0 <= old(self).node_infos().len() && old(self).node_infos()[node_id.0 - 1].kind
                != NodeType::Element ==> (r matches Err(e) && e@
                == "Cannot set attribute on non-element node"@ && *final(self) == *old(self)),
            1 <= node_id.0 <= old(self).node_infos().len() && old(self).node_infos()[node_id.0 - 1].kind
                == NodeType::Element ==> {
                let i = node_id.0 - 1;
                let before = old(self).node_infos()[i];
                let attrs = match before.attributes {
                    Some(a) => a,
                    None => Seq::empty(),
                };
                &&& r is Ok
                &&& final(self).node_infos() == old(self).node_infos().update(
                    i,
                    NodeInfo { attributes: Some(attrs_after_set(attrs, name@, value@)), ..before },
                )
                &&& final(self).lists() == old(self).lists()
                &&& final(self).search_map() == old(self).search_map()
                &&& final(self).is_listening() == old(self).is_listening()
                &&& old(self).is_listening() ==> {
                    &&& final(self).mutation_log().drop_last() == (if old(self).mutation_log().len() < 100 {
                        old(self).mutation_log()
                    } else {
                        old(self).mutation_log().drop_first()
                    })
                    &&& final(self).mutation_log().last().mutation_type == MutationType::AttributeModified
                    &&& final(self).mutation_log().last().target_node_id == node_id
                    &&& final(self).mutation_log().last().attribute_name matches Some(a) && a@ == name@
                    &&& match attribute_value(attrs, name@) {
                        Some(v) => final(self).mutation_log().last().old_value matches Some(o) && o@ == v,
                        None => final(self).mutation_log().last().old_value is None,
                    }
                }
                &&& !old(self).is_listening() ==> final(self).mutation_log() == old(self).mutation_log()
            },
    {
        if !(node_id.0 >= 1 && (node_id.0 as usize) <= self.nodes.len()) {
            let digits = decimal_string(node_id.0 as u64);
            let head = concat_str("Node ", digits.as_str());
            return Err(concat_str(head.as_str(), " not found"));
        }
        let i = (node_id.0 - 1) as usize;
        let ghost infos = self.node_infos();
        assert(infos[i as int] == info(self.nodes@[i as int]));
        if self.nodes[i].node_type != NodeType::Element {
            return Err(owned("Cannot set attribute on non-element node"));
        }
        let old_value = get_attribute_value(&self.nodes[i].attributes, name);
        let ghost before_attrs = match infos[i as int].attributes {
            Some(a) => a,
            None => Seq::<Seq<char>>::empty(),
        };
        let node = &mut self.nodes[i];
        let mut attrs: Vec<String> = match node.attributes.take() {
            Some(a) => a,
            None => Vec::new(),
        };
        assert(string_views(attrs@) == before_attrs);
        match find_pair(&attrs, name) {
            Some(k) => {
                proof {
                    crate::dom::lemma_pair_in_even_list(before_attrs, name@);
                }
                attrs.set(k + 1, owned(value));
                proof {
                    assert(string_views(attrs@) =~= attrs_after_set(before_attrs, name@, value@));
                }
            },
            None => {
                attrs.push(owned(name));
                attrs.push(owned(value));
                proof {
                    assert(string_views(attrs@) =~= attrs_after_set(before_attrs, name@, value@));
                }
            },
        }
        node.attributes = Some(attrs);
        proof {
            let n2 = self.node_infos();
            assert(n2 =~= infos.update(
                i as int,
                NodeInfo { attributes: Some(attrs_after_set(before_attrs, name@, value@)), ..infos[i as int] },
            ));
            assert forall|j: int| 0 <= j < n2.len() implies {
                &&& (#[trigger] n2[j]).id == j + 1
                &&& self.nodes@[j].children is None
                &&& (n2[j].attributes matches Some(a) ==> a.len() % 2 == 0)
            } by {
                if j != i {
                    assert(n2[j] == infos[j]);
                }
            }
        }
        self.emit(
            MutationRecord {
                mutation_type: MutationType::AttributeModified,
                target_node_id: node_id,
                added_node_ids: None,
                removed_node_ids: None,
                previous_sibling_id: None,
                attribute_name: Some(owned(name)),
                old_value,
            },
        );
        Ok(())
    }

    /// Removes the first pair named `name` from an element's attributes and
    /// logs the change with the old value. Refused for a missing node and
    /// for a non-element.
    pub fn remove_attribute(&mut self, node_id: NodeId, name: &str) -> (r: Result<(), String>)
        requires
            old(self).wf(),
        ensures
            final(self).wf(),
            !(1 <= node_id.0 <= old(self).node_infos().len()) ==> (r matches Err(e) && e@ == "Node "@
                + decimal_digits(node_id.0 as nat) + " not found"@ && *final(self) == *old(self)),
            1 <= node_id.0 <= old(self).node_infos().len() && old(self).node_infos()[node_id.0 - 1].kind
                != NodeType::Element ==> (r matches Err(e) && e@
                == "Cannot remove attribute from non-element node"@ && *final(self) == *old(self)),
            1 <= node_id.0 <= old(self).node_infos().len() && old(self).node_infos()[node_id.0 - 1].kind
                == NodeType::Element ==> {
                let i = node_id.0 - 1;
                let before = old(self).node_infos()[i];
                &&& r is Ok
                &&& final(self).node_infos() == old(self).node_infos().update(
                    i,
                    NodeInfo {
                        attributes: match before.attributes {
                            Some(a) => Some(attrs_after_remove(a, name@)),
                            None => None,
                        },
                        ..before
                    },
                )
                &&& final(self).lists() == old(self).lists()
                &&& final(self).search_map() == old(self).search_map()
                &&& final(self).is_listening() == old(self).is_listening()
                &&& old(self).is_listening() ==> {
                    &&& final(self).mutation_log().last().mutation_type == MutationType::AttributeModified
                    &&& final(self).mutation_log().last().target_node_id == node_id
                    &&& final(self).mutation_log().last().attribute_name matches Some(a) && a@ == name@
                }
                &&& !old(self).is_listening() ==> final(self).mutation_log() == old(self).mutation_log()
            },
    {
        if !(node_id.0 >= 1 && (node_id.0 as usize) <= self.nodes.len()) {
            let digits = decimal_string(node_id.0 as u64);
            let head = concat_str("Node ", digits.as_str());
            return Err(concat_str(head.as_str(), " not found"));
        }
        let i = (node_id.0 - 1) as usize;
        let ghost infos = self.node_infos();
        assert(infos[i as int] == info(self.nodes@[i as int]));
        if self.nodes[i].node_type != NodeType::Element {
            return Err(owned("Cannot remove attribute from non-element node"));
        }
        let old_value = get_attribute_value(&self.nodes[i].attributes, name);
        let node = &mut self.nodes[i];
        match node.attributes.take() {
            Some(mut attrs) => {
                let ghost a0 = string_views(attrs@);
                match find_pair(&attrs, name) {
                    Some(k) => {
                        proof {
                            crate::dom::lemma_pair_in_even_list(a0, name@);
                        }
                        attrs.remove(k + 1);
                        attrs.remove(k);
                        proof {
                            assert(string_views(attrs@) =~= attrs_after_remove(a0, name@));
                        }
                    },
                    None => {},
                }
                node.attributes = Some(attrs);
            },
            None => {},
        }
        proof {
            let n2 = self.node_infos();
            let before = infos[i as int];
            assert(n2 =~= infos.update(
                i as int,
                NodeInfo {
                    attributes: match before.attributes {
                        Some(a) => Some(attrs_after_remove(a, name@)),
                        None => None,
                    },
                    ..before
                },
            ));
            assert forall|j: int| 0 <= j < n2.len() implies {
                &&& (#[trigger] n2[j]).id == j + 1
                &&& self.nodes@[j].children is None
                &&& (n2[j].attributes matches Some(a) ==> a.len() % 2 == 0)
            } by {
                if j != i {
                    assert(n2[j] == infos[j]);
                }
            }
        }
        self.emit(
            MutationRecord {
                mutation_type: MutationType::AttributeModified,
                target_node_id: node_id,
                added_node_ids: None,
                removed_node_ids: None,
                previous_sibling_id: None,
                attribute_name: Some(owned(name)),
                old_value,
            },
        );
        Ok(())
    }

    /// Whether a node contains the (lowercased) query.
    fn node_hits(node: &Node, lower_query: &str) -> (r: bool)
        ensures
            r == search_hit(info(*node), lower_query@),
    {
        let q = chars_of(lower_query);
        let name = to_lower(node.node_name.as_str());
        if chars_contain(chars_of(name.as_str()).as_slice(), q.as_slice()) {
            return true;
        }
        match &node.node_value {
            Some(v) => {
                let lv = to_lower(v.as_str());
                if chars_contain(chars_of(lv.as_str()).as_slice(), q.as_slice()) {
                    return true;
                }
            },
            None => {},
        }
        match &node.attributes {
            Some(attrs) => {
                let ghost a = string_views(attrs@);
                let mut k: usize = 0;
                while k < attrs.len()
                    invariant
                        k <= attrs@.len(),
                        a == string_views(attrs@),
                        info(*node).attributes == Some(a),
                        q@ == lower_query@,
                        forall|j: int| 0 <= j < k ==> !contains_seq(lowercase(#[trigger] a[j]), lower_query@),
                    decreases attrs@.len() - k,
                {
                    let la = to_lower(attrs[k].as_str());
                    assert(a[k as int] == attrs@[k as int]@);
                    let lc = chars_of(la.as_str());
                    if chars_contain(lc.as_slice(), q.as_slice()) {
                        assert(contains_seq(lowercase(a[k as int]), lower_query@));
                        assert(attribute_hit(a, lower_query@));
                        return true;
                    }
                    k = k + 1;
                }
                false
            },
            None => false,
        }
    }

    /// Searches the page for a query (case-insensitively, in node names,
    /// values and attributes), stores the matching ids under a fresh
    /// `search-<n>` id and gives that id and the number of matches.
    pub fn perform_search(&mut self, query: &str, include_user_agent_shadow_dom: bool) -> (r: (String, u32))
        requires
            old(self).wf(),
        ensures
            final(self).wf(),
            r.0@ == "search-"@ + decimal_digits(old(self).search_counter() as nat),
            final(self).search_counter() == (if old(self).search_counter() == u64::MAX {
                0
            } else {
                (old(self).search_counter() + 1) as u64
            }),
            ({
                let hits = search_matches(old(self).node_infos(), lowercase(query@));
                &&& final(self).search_map() == old(self).search_map().insert(r.0@, hits)
                &&& r.1 == hits.len() as u32
            }),
            final(self).node_infos() == old(self).node_infos(),
            final(self).lists() == old(self).lists(),
            final(self).mutation_log() == old(self).mutation_log(),
            final(self).is_listening() == old(self).is_listening(),
    {
        let n = self.next_search_id;
        self.next_search_id = self.next_search_id.wrapping_add(1);
        let digits = decimal_string(n);
        let search_id = concat_str("search-", digits.as_str());
        let lower = to_lower(query);
        let ghost infos = self.node_infos();
        let mut matching: Vec<NodeId> = Vec::new();
        let mut i: usize = 0;
        while i < self.nodes.len()
            invariant
                self.wf(),
                infos == self.node_infos(),
                lower@ == lowercase(query@),
                i <= infos.len(),
                matching@ == search_matches(infos.take(i as int), lower@),
            decreases infos.len() - i,
        {
            proof {
                assert(infos.take(i + 1).drop_last() =~= infos.take(i as int));
                assert(infos.take(i + 1).last() == infos[i as int]);
            }
            let node = &self.nodes[i];
            assert(infos[i as int] == info(*node));
            if Self::node_hits(node, lower.as_str()) {
                matching.push(node.node_id);
            }
            i = i + 1;
        }
        proof {
            assert(infos.take(i as int) =~= infos);
        }
        let count = matching.len() as u32;
        let ghost hits = matching@;
        let key = search_id.clone();
        self.searches.insert(key, matching);
        proof {
            assert(self.searches@.map_values(|v: Vec<NodeId>| v@) =~= old(self).searches@.map_values(
                |v: Vec<NodeId>| v@,
            ).insert(search_id@, hits));
        }
        (search_id, count)
    }

    /// The results `from_index..min(to_index, len)` of a stored search
    /// (none for an unknown search or an empty range).
    pub fn get_search_results(&self, search_id: &str, from_index: u32, to_index: u32) -> (r: Vec<NodeId>)
        requires
            self.wf(),
        ensures
            self.search_map().contains_key(search_id@) ==> r@ == result_page(
                self.search_map()[search_id@],
                from_index as int,
                to_index as int,
            ),
            !self.search_map().contains_key(search_id@) ==> r@.len() == 0,
    {
        match self.searches.get(search_id) {
            Some(results) => {
                let from = from_index as usize;
                let to = if (to_index as usize) < results.len() {
                    to_index as usize
                } else {
                    results.len()
                };
                let mut r: Vec<NodeId> = Vec::new();
                if from < to {
                    let mut k = from;
                    while k < to
                        invariant
                            from <= k <= to <= results@.len(),
                            r@ == results@.subrange(from as int, k as int),
                        decreases to - k,
                    {
                        r.push(results[k]);
                        k = k + 1;
                        proof {
                            assert(r@ =~= results@.subrange(from as int, k as int));
                        }
                    }
                }
                r
            },
            None => Vec::new(),
        }
    }

    /// Forgets a stored search.
    pub fn discard_search_results(&mut self, search_id: &str)
        requires
            old(self).wf(),
        ensures
            final(self).wf(),
            final(self).search_map() == old(self).search_map().remove(search_id@),
            final(self).node_infos() == old(self).node_infos(),
            final(self).lists() == old(self).lists(),
            final(self).mutation_log() == old(self).mutation_log(),
    {
        self.searches.remove(search_id);
        proof {
            assert(self.searches@.map_values(|v: Vec<NodeId>| v@) =~= old(self).searches@.map_values(
                |v: Vec<NodeId>| v@,
            ).remove(search_id@));
        }
    }

    /// The computed style of a node (the same five properties for every
    /// node), or none for a missing node.
    pub fn get_computed_styles(&self, node_id: NodeId) -> (r: Option<ComputedStyles>)
        requires
            self.wf(),
        ensures
            !(1 <= node_id.0 <= self.node_infos().len()) ==> r is None,
            1 <= node_id.0 <= self.node_infos().len() ==> (r matches Some(s) && canned_styles(
                s.properties@,
            )),
    {
        if !(node_id.0 >= 1 && (node_id.0 as usize) <= self.nodes.len()) {
            return None;
        }
        let mut properties: Vec<CssProperty> = Vec::new();
        properties.push(css("display", "block", "display: block"));
        properties.push(css("color", "rgb(0, 0, 0)", "color: rgb(0, 0, 0)"));
        properties.push(css("font-size", "16px", "font-size: 16px"));
        properties.push(css("margin", "0px", "margin: 0px"));
        properties.push(css("padding", "0px", "padding: 0px"));
        Some(ComputedStyles { properties })
    }

    /// The box model of a node, in pixels derived from its id (`base` is ten
    /// times the id: content at `base + 10` of size `100 + base` by
    /// `50 + base`, padding five, border two and margin three pixels
    /// around), or none for a missing node.
    pub fn get_box_model(&self, node_id: NodeId) -> (r: Option<BoxModel>)
        requires
            self.wf(),
        ensures
            !(1 <= node_id.0 <= self.node_infos().len()) ==> r is None,
            1 <= node_id.0 <= self.node_infos().len() ==> (r matches Some(b) && canned_box(
                b,
                node_id.0 * 10,
            )),
    {
        if !(node_id.0 >= 1 && (node_id.0 as usize) <= self.nodes.len()) {
            return None;
        }
        let base: i64 = (node_id.0 as i64) * 10;
        let width: i64 = 100 + base;
        let height: i64 = 50 + base;
        Some(
            BoxModel {
                content: [
                    base + 10,
                    base + 10,
                    base + 10 + width,
                    base + 10,
                    base + 10 + width,
                    base + 10 + height,
                    base + 10,
                    base + 10 + height,
                ],
                padding: [
                    base + 5,
                    base + 5,
                    base + 15 + width,
                    base + 5,
                    base + 15 + width,
                    base + 15 + height,
                    base + 5,
                    base + 15 + height,
                ],
                border: [
                    base + 3,
                    base + 3,
                    base + 17 + width,
                    base + 3,
                    base + 17 + width,
                    base + 17 + height,
                    base + 3,
                    base + 17 + height,
                ],
                margin: [
                    base,
                    base,
                    base + 20 + width,
                    base,
                    base + 20 + width,
                    base + 20 + height,
                    base,
                    base + 20 + height,
                ],
                width,
                height,
                shape_outside: None,
            },
        )
    }

    /// The layer tree: a root layer on the document, a body layer and a
    /// container layer.
    pub fn get_layer_tree(&self) -> (r: Vec<LayerInfo>)
        ensures
            canned_layers(r@),
    {
        let mut r: Vec<LayerInfo> = Vec::new();
        r.push(layer("root-layer", None, 1, 0, 0, 1920, 1080, "root"));
        r.push(layer("body-layer", Some("root-layer"), 5, 0, 0, 1920, 1080, "layoutObject"));
        r.push(layer("container-layer", Some("body-layer"), 6, 10, 10, 800, 600, "transform"));
        r
    }
}

/// A computed property that is neither important nor implicit, parsed and
/// enabled.
fn css(name: &str, value: &str, text: &str) -> (p: CssProperty)
    ensures
        p.name@ == name@,
        p.value@ == value@,
        p.text matches Some(t) && t@ == text@,
        p.important == Some(false),
        p.implicit == Some(false),
        p.parsed_ok == Some(true),
        p.disabled == Some(false),
{
    CssProperty {
        name: owned(name),
        value: owned(value),
        important: Some(false),
        implicit: Some(false),
        text: Some(owned(text)),
        parsed_ok: Some(true),
        disabled: Some(false),
    }
}

/// Whether a property is the canned one named `name` with `value`.
pub open spec fn canned_property(p: CssProperty, name: Seq<char>, value: Seq<char>, text: Seq<char>) -> bool {
    &&& p.name@ == name
    &&& p.value@ == value
    &&& p.text matches Some(t) && t@ == text
    &&& p.important == Some(false)
    &&& p.implicit == Some(false)
    &&& p.parsed_ok == Some(true)
    &&& p.disabled == Some(false)
}

/// The five canned properties: display block, black color, 16px font,
/// zero margin and padding.
pub open spec fn canned_styles(ps: Seq<CssProperty>) -> bool {
    &&& ps.len() == 5
    &&& canned_property(ps[0], "display"@, "block"@, "display: block"@)
    &&& canned_property(ps[1], "color"@, "rgb(0, 0, 0)"@, "color: rgb(0, 0, 0)"@)
    &&& canned_property(ps[2], "font-size"@, "16px"@, "font-size: 16px"@)
    &&& canned_property(ps[3], "margin"@, "0px"@, "margin: 0px"@)
    &&& canned_property(ps[4], "padding"@, "0px"@, "padding: 0px"@)
}

/// A box inset by `d` from the square at `base` grown by the node's size.
pub open spec fn quad_at(q: Quad, lo: int, hi_x: int, hi_y: int) -> bool {
    q@ == seq![lo as i64, lo as i64, hi_x as i64, lo as i64, hi_x as i64, hi_y as i64, lo as i64, hi_y as i64]
}

/// The canned box of a node with `base` ten times its id.
pub open spec fn canned_box(b: BoxModel, base: int) -> bool {
    let w = 100 + base;
    let h = 50 + base;
    &&& b.width == w
    &&& b.height == h
    &&& b.shape_outside is None
    &&& quad_at(b.content, base + 10, base + 10 + w, base + 10 + h)
    &&& quad_at(b.padding, base + 5, base + 15 + w, base + 15 + h)
    &&& quad_at(b.border, base + 3, base + 17 + w, base + 17 + h)
    &&& quad_at(b.margin, base, base + 20 + w, base + 20 + h)
}

fn layer(
    id: &str,
    parent: Option<&str>,
    node: u32,
    x: i64,
    y: i64,
    width: i64,
    height: i64,
    reason: &str,
) -> (l: LayerInfo)
    ensures
        l.layer_id@ == id@,
        match parent {
            Some(p) => l.parent_layer_id matches Some(q) && q@ == p@,
            None => l.parent_layer_id is None,
        },
        l.node_id == Some(NodeId(node)),
        l.offset_x == x,
        l.offset_y == y,
        l.width == width,
        l.height == height,
        l.transform is None,
        l.compositing_reasons@.len() == 1,
        l.compositing_reasons@[0]@ == reason@,
        l.draws_content,
{
    let mut reasons: Vec<String> = Vec::new();
    reasons.push(owned(reason));
    LayerInfo {
        layer_id: owned(id),
        parent_layer_id: match parent {
            Some(p) => Some(owned(p)),
            None => None,
        },
        node_id: Some(NodeId(node)),
        offset_x: x,
        offset_y: y,
        width,
        height,
        transform: None,
        compositing_reasons: reasons,
        draws_content: true,
    }
}

/// Whether a layer is the canned one.
pub open spec fn canned_layer(
    l: LayerInfo,
    id: Seq<char>,
    parent: Option<Seq<char>>,
    node: u32,
    x: int,
    y: int,
    w: int,
    h: int,
    reason: Seq<char>,
) -> bool {
    &&& l.layer_id@ == id
    &&& match parent {
        Some(p) => l.parent_layer_id matches Some(q) && q@ == p,
        None => l.parent_layer_id is None,
    }
    &&& l.node_id == Some(NodeId(node))
    &&& l.offset_x == x
    &&& l.offset_y == y
    &&& l.width == w
    &&& l.height == h
    &&& l.transform is None
    &&& l.compositing_reasons@.len() == 1
    &&& l.compositing_reasons@[0]@ == reason
    &&& l.draws_content
}

/// The three canned layers: the root on the document, the body layer
/// under it and the container layer under that.
pub open spec fn canned_layers(ls: Seq<LayerInfo>) -> bool {
    &&& ls.len() == 3
    &&& canned_layer(ls[0], "root-layer"@, None, 1, 0, 0, 1920, 1080, "root"@)
    &&& canned_layer(ls[1], "body-layer"@, Some("root-layer"@), 5, 0, 0, 1920, 1080, "layoutObject"@)
    &&& canned_layer(ls[2], "container-layer"@, Some("body-layer"@), 6, 10, 10, 800, 600, "transform"@)
}

// ---------------------------------------------------------------------------
// Laws of attribute edits and searches
// ---------------------------------------------------------------------------

/// An attribute that is set reads back as the value set, the list stays in
/// pairs, and every other attribute keeps its value.
pub proof fn written_attribute_reads_back(attrs: Seq<Seq<char>>, name: Seq<char>, value: Seq<char>)
    requires
        attrs.len() % 2 == 0,
    ensures
        attrs_after_set(attrs, name, value).len() % 2 == 0,
        attribute_value(attrs_after_set(attrs, name, value), name) == Some(value),
        forall|other: Seq<char>|
            other != name ==> #[trigger] attribute_value(attrs_after_set(attrs, name, value), other)
                == attribute_value(attrs, other),
{
    let b = attrs_after_set(attrs, name, value);
    lemma_first_pair_from(attrs, name, 0);
    lemma_first_pair_from(b, name, 0);
    match first_pair(attrs, name) {
        Some(i) => {
            assert(b[i] == name);
            assert forall|p: int| 0 <= p < attrs.len() && p % 2 == 0 implies b[p] == attrs[p] by {}
            assert forall|other: Seq<char>| other != name implies #[trigger] attribute_value(b, other)
                == attribute_value(attrs, other) by {
                lemma_first_pair_from(attrs, other, 0);
                lemma_first_pair_from(b, other, 0);
                match first_pair(attrs, other) {
                    Some(j) => {
                        assert(b[j] == other);
                        assert(j != i);
                    },
                    None => {},
                }
            }
        },
        None => {
            let n = attrs.len() as int;
            assert(b[n] == name);
            assert(b[n + 1] == value);
            assert forall|p: int| 0 <= p < n implies b[p] == attrs[p] by {}
            assert forall|other: Seq<char>| other != name implies #[trigger] attribute_value(b, other)
                == attribute_value(attrs, other) by {
                lemma_first_pair_from(attrs, other, 0);
                lemma_first_pair_from(b, other, 0);
                match first_pair(attrs, other) {
                    Some(j) => {
                        assert(b[j] == other);
                    },
                    None => {
                        assert(b[n] != other);
                    },
                }
            }
        },
    }
}

/// An attribute that is removed no longer reads, in a list where no name
/// occurs twice; the list stays in pairs and every other attribute keeps
/// its value.
pub proof fn removed_attribute_is_gone(attrs: Seq<Seq<char>>, name: Seq<char>)
    requires
        attrs.len() % 2 == 0,
        forall|p: int, q: int|
            0 <= p < q < attrs.len() && p % 2 == 0 && q % 2 == 0 ==> attrs[p] != attrs[q],
    ensures
        attrs_after_remove(attrs, name).len() % 2 == 0,
        attribute_value(attrs_after_remove(attrs, name), name) is None,
        forall|other: Seq<char>|
            other != name ==> #[trigger] attribute_value(attrs_after_remove(attrs, name), other)
                == attribute_value(attrs, other),
{
    let b = attrs_after_remove(attrs, name);
    lemma_first_pair_from(attrs, name, 0);
    lemma_first_pair_from(b, name, 0);
    match first_pair(attrs, name) {
        Some(i) => {
            let n = attrs.len() as int;
            assert(b.len() == n - 2);
            assert forall|p: int| 0 <= p < b.len() implies #[trigger] b[p] == (if p < i {
                attrs[p]
            } else {
                attrs[p + 2]
            }) by {}
            assert forall|p: int| 0 <= p < b.len() && p % 2 == 0 implies #[trigger] b[p] != name by {
                if p < i {
                } else {
                    assert(attrs[i] != attrs[p + 2]);
                }
            }
            assert forall|other: Seq<char>| other != name implies #[trigger] attribute_value(b, other)
                == attribute_value(attrs, other) by {
                lemma_first_pair_from(attrs, other, 0);
                lemma_first_pair_from(b, other, 0);
                match first_pair(attrs, other) {
                    Some(j) => {
                        if j < i {
                            assert(b[j] == other);
                        } else {
                            assert(b[j - 2] == other);
                            assert(b[j - 1] == attrs[j + 1]);
                            match first_pair(b, other) {
                                Some(k) => {
                                    if k < i {
                                        assert(b[k] == attrs[k]);
                                    } else {
                                        assert(b[k] == attrs[k + 2]);
                                    }
                                },
                                None => {},
                            }
                        }
                    },
                    None => {
                        match first_pair(b, other) {
                            Some(k) => {
                                if k < i {
                                    assert(b[k] == attrs[k]);
                                } else {
                                    assert(b[k] == attrs[k + 2]);
                                }
                            },
                            None => {},
                        }
                    },
                }
            }
        },
        None => {},
    }
}

/// The results of a search read back whole: the page from the first result
/// to the result count is every result.
pub proof fn search_results_read_back(searches: Map<Seq<char>, Seq<NodeId>>, search_id: Seq<char>, hits: Seq<NodeId>)
    ensures
        searches.insert(search_id, hits).contains_key(search_id),
        result_page(searches.insert(search_id, hits)[search_id], 0, hits.len() as int) == hits,
{
    if hits.len() > 0 {
        assert(hits.subrange(0, hits.len() as int) =~= hits);
    } else {
        assert(hits =~= Seq::<NodeId>::empty());
    }
}

proof fn lemma_search_matches_hit(nodes: Seq<NodeInfo>, lower_query: Seq<char>, i: int)
    requires
        0 <= i < nodes.len(),
        search_hit(nodes[i], lower_query),
    ensures
        search_matches(nodes, lower_query).contains(NodeId(nodes[i].id)),
    decreases nodes.len(),
{
    let rest = search_matches(nodes.drop_last(), lower_query);
    if i == nodes.len() - 1 {
        assert(search_matches(nodes, lower_query) == rest.push(NodeId(nodes[i].id)));
        assert(search_matches(nodes, lower_query)[rest.len() as int] == NodeId(nodes[i].id));
    } else {
        assert(nodes.drop_last()[i] == nodes[i]);
        lemma_search_matches_hit(nodes.drop_last(), lower_query, i);
        let j = choose|j: int| 0 <= j < rest.len() && rest[j] == NodeId(nodes[i].id);
        if search_hit(nodes.last(), lower_query) {
            assert(search_matches(nodes, lower_query)[j] == rest[j]);
        }
    }
}

/// A search looks into attributes: a node one of whose attribute names or
/// values contains the query, ignoring case, is among the matches of that
/// query.
pub proof fn attribute_match_is_found(nodes: Seq<NodeInfo>, query: Seq<char>, i: int, k: int)
    requires
        0 <= i < nodes.len(),
        nodes[i].attributes is Some,
        0 <= k < nodes[i].attributes->0.len(),
        contains_seq(lowercase(nodes[i].attributes->0[k]), lowercase(query)),
    ensures
        search_matches(nodes, lowercase(query)).contains(NodeId(nodes[i].id)),
{
    let a = nodes[i].attributes->0;
    assert(attribute_hit(a, lowercase(query)));
    lemma_search_matches_hit(nodes, lowercase(query), i);
}

/// A search looks into names and values: a node whose name, or whose
/// value, contains the query, ignoring case, is among the matches of that
/// query.
pub proof fn name_or_value_match_is_found(nodes: Seq<NodeInfo>, query: Seq<char>, i: int)
    requires
        0 <= i < nodes.len(),
        contains_seq(lowercase(nodes[i].name), lowercase(query)) || (nodes[i].value is Some && contains_seq(
            lowercase(nodes[i].value->0),
            lowercase(query),
        )),
    ensures
        search_matches(nodes, lowercase(query)).contains(NodeId(nodes[i].id)),
{
    lemma_search_matches_hit(nodes, lowercase(query), i);
}

/// The mutation log of a browser never holds more than a hundred records:
/// past that, the oldest record gives way to the newest.
pub proof fn mutation_log_is_bounded(b: &MockBrowser)
    requires
        b.wf(),
    ensures
        b.mutation_log().len() <= 100,
{
}

/// A browser as it starts: the test page, no searches, the first search
/// numbered 1, nobody listening and no mutation logged.
pub open spec fn fresh_page(b: MockBrowser) -> bool {
    &&& b.wf()
    &&& test_dom(b.node_infos(), b.lists())
    &&& b.search_map() == Map::<Seq<char>, Seq<NodeId>>::empty()
    &&& b.search_counter() == 1
    &&& !b.is_listening()
    &&& b.mutation_log().len() == 0
}

} // verus!
