//! The DOM domain over the simulated page: document and subtree requests,
//! selector queries, attribute edits, highlighting and search.

use vstd::prelude::*;
use crate::accessibility::{RGBA, node_not_found, not_found};
use crate::dom::{Node, NodeId, NodeInfo};
use crate::mock_browser::{
    MockBrowser, attrs_after_remove, attrs_after_set, children_of, fresh_page, is_subtree, result_page,
    search_matches, selector_matches,
};
use crate::protocol::ProtocolError;
use crate::text::{decimal_digits, lowercase, owned};

verus! {

/// How a highlight is drawn.
#[derive(Debug, Clone, Copy, PartialEq, Eq, Structural)]
pub struct HighlightConfig {
    pub show_info: bool,
    pub show_rulers: bool,
    pub show_accessibility_info: bool,
    pub show_extension_lines: bool,
    pub content_color: Option<RGBA>,
    pub padding_color: Option<RGBA>,
    pub border_color: Option<RGBA>,
    pub margin_color: Option<RGBA>,
}

/// The bits of 0.66.
pub const ALPHA_066: u64 = 0x3FE5_1EB8_51EB_851F;

/// The bits of 0.55.
pub const ALPHA_055: u64 = 0x3FE1_9999_9999_999A;

/// The default highlight: info shown, no rulers; blue content, green
/// padding, yellow border and orange margin.
pub open spec fn default_highlight_config() -> HighlightConfig {
    HighlightConfig {
        show_info: true,
        show_rulers: false,
        show_accessibility_info: false,
        show_extension_lines: false,
        content_color: Some(RGBA { r: 111, g: 168, b: 220, alpha_bits: ALPHA_066 }),
        padding_color: Some(RGBA { r: 147, g: 196, b: 125, alpha_bits: ALPHA_055 }),
        border_color: Some(RGBA { r: 255, g: 229, b: 153, alpha_bits: ALPHA_066 }),
        margin_color: Some(RGBA { r: 246, g: 178, b: 107, alpha_bits: ALPHA_066 }),
    }
}

impl Default for HighlightConfig {
    /// Info shown, no rulers; blue content, green padding, yellow border and
    /// orange margin.
    fn default() -> (c: Self)
        ensures
            c.show_info,
            !c.show_rulers,
            !c.show_accessibility_info,
            !c.show_extension_lines,
            c.content_color == Some(RGBA { r: 111, g: 168, b: 220, alpha_bits: ALPHA_066 }),
            c.padding_color == Some(RGBA { r: 147, g: 196, b: 125, alpha_bits: ALPHA_055 }),
            c.border_color == Some(RGBA { r: 255, g: 229, b: 153, alpha_bits: ALPHA_066 }),
            c.margin_color == Some(RGBA { r: 246, g: 178, b: 107, alpha_bits: ALPHA_066 }),
            c == default_highlight_config(),
    {
        HighlightConfig {
            show_info: true,
            show_rulers: false,
            show_accessibility_info: false,
            show_extension_lines: false,
            content_color: Some(RGBA { r: 111, g: 168, b: 220, alpha_bits: ALPHA_066 }),
            padding_color: Some(RGBA { r: 147, g: 196, b: 125, alpha_bits: ALPHA_055 }),
            border_color: Some(RGBA { r: 255, g: 229, b: 153, alpha_bits: ALPHA_066 }),
            margin_color: Some(RGBA { r: 246, g: 178, b: 107, alpha_bits: ALPHA_066 }),
        }
    }
}

/// What is selected and highlighted.
#[derive(Debug, Clone, Copy, PartialEq, Eq, Structural)]
pub struct SelectionState {
    pub selected_node: Option<NodeId>,
    pub highlighted_node: Option<NodeId>,
    pub highlight_config: HighlightConfig,
}

impl Default for SelectionState {
    /// Nothing selected or highlighted, the default highlight.
    fn default() -> (s: Self)
        ensures
            s.selected_node is None,
            s.highlighted_node is None,
            s.highlight_config.show_info,
            s.highlight_config == default_highlight_config(),
    {
        SelectionState { selected_node: None, highlighted_node: None, highlight_config: HighlightConfig::default() }
    }
}

/// A stored search and its size.
#[derive(Debug)]
pub struct SearchResult {
    pub search_id: String,
    pub result_count: u32,
}

/// The error for an attribute edit the page refused.
pub open spec fn edit_refused(r: ProtocolError, message: Seq<char>) -> bool {
    r matches ProtocolError::ServerError(code, m) && code == -32000 && m@ == message
}

/// Whether a node exists on a page.
pub open spec fn exists_on(page: MockBrowser, id: NodeId) -> bool {
    1 <= id.0 <= page.node_infos().len()
}

/// The DOM domain.
#[derive(Debug)]
pub struct DomInspectorBridge {
    browser: MockBrowser,
    selection_state: SelectionState,
}

impl DomInspectorBridge {
    pub closed spec fn page(&self) -> MockBrowser {
        self.browser
    }

    pub closed spec fn selection(&self) -> SelectionState {
        self.selection_state
    }

    /// The bridge's invariant: the page is well formed.
    pub closed spec fn wf(&self) -> bool {
        self.browser.wf()
    }

    /// A bridge over the test page.
    pub fn new() -> (b: Self)
        ensures
            b.wf(),
            fresh_page(b.page()),
            b.selection().selected_node is None,
            b.selection().highlighted_node is None,
            b.selection().highlight_config == default_highlight_config(),
    {
        DomInspectorBridge { browser: MockBrowser::new(), selection_state: SelectionState::default() }
    }

    /// A bridge over a given page.
    pub fn with_browser(browser: MockBrowser) -> (b: Self)
        requires
            browser.wf(),
        ensures
            b.wf(),
            b.page() == browser,
            b.selection().selected_node is None,
            b.selection().highlighted_node is None,
            b.selection().highlight_config == default_highlight_config(),
    {
        DomInspectorBridge { browser, selection_state: SelectionState::default() }
    }

    /// The domain's name.
    pub fn name(&self) -> (n: &'static str)
        ensures
            n@ == "DOMInspector"@,
    {
        "DOMInspector"
    }

    /// The page.
    pub fn browser(&self) -> (b: &MockBrowser)
        ensures
            *b == self.page(),
    {
        &self.browser
    }

    /// The selection state.
    pub fn get_selection_state(&self) -> (s: SelectionState)
        ensures
            s == self.selection(),
    {
        self.selection_state
    }

    /// The document with its descendants to `depth` levels (one by default;
    /// a negative depth wraps as a 32-bit cast does). An internal error
    /// when the page has no document.
    pub fn get_document(&self, depth: Option<i32>) -> (r: Result<Node, ProtocolError>)
        requires
            self.wf(),
        ensures
            self.page().node_infos().len() >= 1 ==> (r matches Ok(t) && is_subtree(
                t,
                self.page().node_infos(),
                self.page().lists(),
                1,
                (match depth {
                    Some(d) => d,
                    None => 1i32,
                }) as u32 as int,
            )),
            self.page().node_infos().len() == 0 ==> (r matches Err(ProtocolError::InternalError(m)) && m@
                == "Failed to get document"@),
    {
        let d = match depth {
            Some(d) => d,
            None => 1,
        } as u32;
        match self.browser.get_node_with_children(NodeId(1), d) {
            Some(node) => Ok(node),
            None => Err(ProtocolError::InternalError(owned("Failed to get document"))),
        }
    }

    /// The children of a node, filled in to `depth` levels below the node
    /// (one by default). Refused for a missing node.
    pub fn request_child_nodes(&self, node_id: NodeId, depth: Option<i32>) -> (r: Result<Vec<Node>, ProtocolError>)
        requires
            self.wf(),
        ensures
            !exists_on(self.page(), node_id) ==> (r matches Err(e) && node_not_found(e, node_id.0)),
            exists_on(self.page(), node_id) ==> (r matches Ok(cs) && {
                let d = (match depth {
                    Some(d) => d,
                    None => 1i32,
                }) as u32 as int;
                let kids = children_of(self.page().lists(), node_id.0 as int);
                if d > 0 && kids.len() > 0 {
                    &&& cs@.len() == kids.len()
                    &&& forall|k: int| 0 <= k < kids.len() ==> is_subtree(
                        #[trigger] cs@[k],
                        self.page().node_infos(),
                        self.page().lists(),
                        kids[k].0 as int,
                        d - 1,
                    )
                } else {
                    cs@.len() == 0
                }
            }),
    {
        let d = match depth {
            Some(d) => d,
            None => 1,
        } as u32;
        match self.browser.get_node_with_children(node_id, d) {
            Some(node) => Ok(
                match node.children {
                    Some(cs) => cs,
                    None => Vec::new(),
                },
            ),
            None => Err(not_found(node_id.0)),
        }
    }

    /// The first element matching a selector. Refused for a missing node.
    pub fn query_selector(&self, node_id: NodeId, selector: &str) -> (r: Result<Option<NodeId>, ProtocolError>)
        requires
            self.wf(),
        ensures
            !exists_on(self.page(), node_id) ==> (r matches Err(e) && node_not_found(e, node_id.0)),
            exists_on(self.page(), node_id) ==> (r matches Ok(found) && {
                let all = selector_matches(self.page().node_infos(), selector@);
                if all.len() > 0 {
                    found == Some(all[0])
                } else {
                    found is None
                }
            }),
    {
        if !self.browser.node_exists(node_id) {
            return Err(not_found(node_id.0));
        }
        Ok(self.browser.query_selector(node_id, selector))
    }

    /// The elements matching a selector. Refused for a missing node.
    pub fn query_selector_all(&self, node_id: NodeId, selector: &str) -> (r: Result<Vec<NodeId>, ProtocolError>)
        requires
            self.wf(),
        ensures
            !exists_on(self.page(), node_id) ==> (r matches Err(e) && node_not_found(e, node_id.0)),
            exists_on(self.page(), node_id) ==> (r matches Ok(v) && v@ == selector_matches(
                self.page().node_infos(),
                selector@,
            )),
    {
        if !self.browser.node_exists(node_id) {
            return Err(not_found(node_id.0));
        }
        Ok(self.browser.query_selector_all(node_id, selector))
    }

    /// Sets an attribute; the page's refusal becomes a server error.
    pub fn set_attribute_value(&mut self, node_id: NodeId, name: &str, value: &str) -> (r: Result<(), ProtocolError>)
        requires
            old(self).wf(),
        ensures
            final(self).wf(),
            final(self).selection() == old(self).selection(),
            !exists_on(old(self).page(), node_id) ==> (r matches Err(e) && node_not_found(e, node_id.0)),
            exists_on(old(self).page(), node_id) && old(self).page().node_infos()[node_id.0 - 1].kind
                != crate::dom::NodeType::Element ==> (r matches Err(e) && edit_refused(
                e,
                "Cannot set attribute on non-element node"@,
            )),
            exists_on(old(self).page(), node_id) && old(self).page().node_infos()[node_id.0 - 1].kind
                == crate::dom::NodeType::Element ==> {
                let before = old(self).page().node_infos()[node_id.0 - 1];
                let attrs = match before.attributes {
                    Some(a) => a,
                    None => Seq::empty(),
                };
                &&& r is Ok
                &&& final(self).page().node_infos() == old(self).page().node_infos().update(
                    node_id.0 - 1,
                    NodeInfo { attributes: Some(attrs_after_set(attrs, name@, value@)), ..before },
                )
            },
    {
        match self.browser.set_attribute(node_id, name, value) {
            Ok(()) => Ok(()),
            Err(e) => Err(ProtocolError::ServerError(-32000, e)),
        }
    }

    /// Removes an attribute; the page's refusal becomes a server error.
    pub fn remove_attribute(&mut self, node_id: NodeId, name: &str) -> (r: Result<(), ProtocolError>)
        requires
            old(self).wf(),
        ensures
            final(self).wf(),
            final(self).selection() == old(self).selection(),
            !exists_on(old(self).page(), node_id) ==> (r matches Err(e) && node_not_found(e, node_id.0)),
            exists_on(old(self).page(), node_id) && old(self).page().node_infos()[node_id.0 - 1].kind
                != crate::dom::NodeType::Element ==> (r matches Err(e) && edit_refused(
                e,
                "Cannot remove attribute from non-element node"@,
            )),
            exists_on(old(self).page(), node_id) && old(self).page().node_infos()[node_id.0 - 1].kind
                == crate::dom::NodeType::Element ==> {
                let before = old(self).page().node_infos()[node_id.0 - 1];
                &&& r is Ok
                &&& final(self).page().node_infos() == old(self).page().node_infos().update(
                    node_id.0 - 1,
                    NodeInfo {
                        attributes: match before.attributes {
                            Some(a) => Some(attrs_after_remove(a, name@)),
                            None => None,
                        },
                        ..before
                    },
                )
            },
    {
        match self.browser.remove_attribute(node_id, name) {
            Ok(()) => Ok(()),
            Err(e) => Err(ProtocolError::ServerError(-32000, e)),
        }
    }

    /// Highlights a node (or nothing) with a configuration. Refused for a
    /// missing node.
    pub fn highlight_node(&mut self, node_id: Option<NodeId>, highlight_config: HighlightConfig) -> (r: Result<(), ProtocolError>)
        requires
            old(self).wf(),
        ensures
            final(self).wf(),
            final(self).page() == old(self).page(),
            (node_id matches Some(id) && !exists_on(old(self).page(), id)) ==> (r matches Err(e)
                && node_not_found(e, node_id.unwrap().0) && final(self).selection() == old(self).selection()),
            !(node_id matches Some(id) && !exists_on(old(self).page(), id)) ==> (r is Ok && final(self).selection() == (SelectionState {
                highlighted_node: node_id,
                highlight_config,
                ..old(self).selection()
            })),
    {
        match node_id {
            Some(id) => {
                if !self.browser.node_exists(id) {
                    return Err(not_found(id.0));
                }
            },
            None => {},
        }
        self.selection_state.highlighted_node = node_id;
        self.selection_state.highlight_config = highlight_config;
        Ok(())
    }

    /// Removes the highlight.
    pub fn hide_highlight(&mut self)
        requires
            old(self).wf(),
        ensures
            final(self).wf(),
            final(self).page() == old(self).page(),
            final(self).selection() == (SelectionState { highlighted_node: None, ..old(self).selection() }),
    {
        self.selection_state.highlighted_node = None;
    }

    /// Searches the page and stores the results.
    pub fn perform_search(&mut self, query: &str, include_user_agent_shadow_dom: bool) -> (r: SearchResult)
        requires
            old(self).wf(),
        ensures
            final(self).wf(),
            final(self).selection() == old(self).selection(),
            r.search_id@ == "search-"@ + decimal_digits(old(self).page().search_counter() as nat),
            ({
                let hits = search_matches(old(self).page().node_infos(), lowercase(query@));
                &&& final(self).page().search_map() == old(self).page().search_map().insert(r.search_id@, hits)
                &&& r.result_count == hits.len() as u32
            }),
            final(self).page().node_infos() == old(self).page().node_infos(),
    {
        let (search_id, result_count) = self.browser.perform_search(query, include_user_agent_shadow_dom);
        SearchResult { search_id, result_count }
    }

    /// A page of stored search results.
    pub fn get_search_results(&self, search_id: &str, from_index: u32, to_index: u32) -> (r: Vec<NodeId>)
        requires
            self.wf(),
        ensures
            self.page().search_map().contains_key(search_id@) ==> r@ == result_page(
                self.page().search_map()[search_id@],
                from_index as int,
                to_index as int,
            ),
            !self.page().search_map().contains_key(search_id@) ==> r@.len() == 0,
    {
        self.browser.get_search_results(search_id, from_index, to_index)
    }

    /// Forgets stored search results.
    pub fn discard_search_results(&mut self, search_id: &str)
        requires
            old(self).wf(),
        ensures
            final(self).wf(),
            final(self).selection() == old(self).selection(),
            final(self).page().search_map() == old(self).page().search_map().remove(search_id@),
            final(self).page().node_infos() == old(self).page().node_infos(),
    {
        self.browser.discard_search_results(search_id);
    }

    /// A node with its descendants to `depth` levels (none by default).
    /// Refused without a node id (invalid parameters) and for a missing
    /// node.
    pub fn describe_node(&self, node_id: Option<NodeId>, depth: Option<i32>) -> (r: Result<Node, ProtocolError>)
        requires
            self.wf(),
        ensures
            node_id is None ==> (r matches Err(ProtocolError::InvalidParams(m)) && m@ == "nodeId required"@),
            (node_id matches Some(id) && !exists_on(self.page(), id)) ==> (r matches Err(e) && node_not_found(
                e,
                node_id.unwrap().0,
            )),
            (node_id matches Some(id) && exists_on(self.page(), id)) ==> (r matches Ok(t) && is_subtree(
                t,
                self.page().node_infos(),
                self.page().lists(),
                node_id.unwrap().0 as int,
                (match depth {
                    Some(d) => d,
                    None => 0i32,
                }) as u32 as int,
            )),
    {
        let id = match node_id {
            Some(id) => id,
            None => {
                return Err(ProtocolError::InvalidParams(owned("nodeId required")));
            },
        };
        let d = match depth {
            Some(d) => d,
            None => 0,
        } as u32;
        match self.browser.get_node_with_children(id, d) {
            Some(node) => Ok(node),
            None => Err(not_found(id.0)),
        }
    }

    /// Starts logging the page's mutations.
    pub fn subscribe_mutations(&mut self)
        requires
            old(self).wf(),
        ensures
            final(self).wf(),
            final(self).page().is_listening(),
            final(self).page().node_infos() == old(self).page().node_infos(),
            final(self).selection() == old(self).selection(),
    {
        self.browser.subscribe_mutations();
    }

    /// Hands out the logged mutations.
    pub fn take_mutations(&mut self) -> (r: Vec<crate::mock_browser::MutationRecord>)
        requires
            old(self).wf(),
        ensures
            final(self).wf(),
            r@ == old(self).page().mutation_log(),
            final(self).page().mutation_log().len() == 0,
            final(self).page().node_infos() == old(self).page().node_infos(),
            final(self).selection() == old(self).selection(),
    {
        self.browser.take_mutations()
    }
}

} // verus!
