//! The elements panel: element details, markup, node edits, inline styles
//! and the inspect mode, over the simulated page.

use vstd::prelude::*;
use crate::accessibility::{node_not_found, not_found};
use crate::dom::{NodeId, NodeInfo, node_type_number, string_views};
use crate::dom_inspector::{HighlightConfig, exists_on};
use crate::mock_browser::{fresh_page, MockBrowser};
use crate::protocol::ProtocolError;
use crate::str_map::StrMap;
use crate::text::{concat_str, decimal_digits, lowercase, owned, to_lower};

verus! {

/// What the elements panel shows of a node.
#[derive(Debug)]
pub struct ElementInfo {
    pub node_id: NodeId,
    pub tag_name: String,
    pub node_type: u32,
    pub attributes: StrMap<String>,
    pub inner_html: Option<String>,
    pub outer_html: Option<String>,
    pub child_count: u32,
    pub has_shadow_roots: bool,
    pub is_content_editable: bool,
}

/// An inline style edit.
#[derive(Debug)]
pub struct StyleModification {
    pub property_name: String,
    pub property_value: String,
    pub priority: Option<String>,
}

/// The panel's state. `style_modifications` lists every edit with its node,
/// in the order they were made.
#[derive(Debug)]
pub struct ElementState {
    pub selected_element: Option<NodeId>,
    pub hovered_element: Option<NodeId>,
    pub inspect_mode_enabled: bool,
    pub style_modifications: Vec<(NodeId, StyleModification)>,
}

impl Default for ElementState {
    /// Nothing selected or hovered, inspect mode off, no edits.
    fn default() -> (s: Self)
        ensures
            s.selected_element is None,
            s.hovered_element is None,
            !s.inspect_mode_enabled,
            s.style_modifications@.len() == 0,
    {
        ElementState {
            selected_element: None,
            hovered_element: None,
            inspect_mode_enabled: false,
            style_modifications: Vec::new(),
        }
    }
}

/// The map that an attribute list gives when its first `k` name/value pairs
/// are entered in order (a later pair overrides an earlier one).
pub open spec fn pairs_upto(attrs: Seq<Seq<char>>, k: nat) -> Map<Seq<char>, Seq<char>>
    decreases k,
{
    if k == 0 {
        Map::empty()
    } else {
        pairs_upto(attrs, (k - 1) as nat).insert(attrs[2 * (k - 1)], attrs[2 * (k - 1) + 1])
    }
}

/// The attributes of a list as a map; a trailing name without a value is
/// ignored.
pub open spec fn attribute_map(attrs: Seq<Seq<char>>) -> Map<Seq<char>, Seq<char>> {
    pairs_upto(attrs, attrs.len() / 2)
}

/// The attribute map of a node's optional list.
pub open spec fn node_attribute_map(n: NodeInfo) -> Map<Seq<char>, Seq<char>> {
    match n.attributes {
        Some(a) => attribute_map(a),
        None => Map::empty(),
    }
}

/// The map of an attribute list, by `attribute_map`.
pub fn attributes_as_map(attrs: &Option<Vec<String>>) -> (m: StrMap<String>)
    ensures
        forall|k: Seq<char>| #[trigger]
            m@.contains_key(k) == (match attrs {
                Some(a) => attribute_map(string_views(a@)).contains_key(k),
                None => false,
            }),
        forall|k: Seq<char>| #[trigger]
            m@.contains_key(k) ==> (attrs matches Some(a) && m@[k]@ == attribute_map(
                string_views(a@),
            )[k]),
{
    let mut m: StrMap<String> = StrMap::new();
    match attrs {
        None => m,
        Some(a) => {
            let ghost v = string_views(a@);
            let mut i: usize = 0;
            while i + 1 < a.len()
                invariant
                    v == string_views(a@),
                    i % 2 == 0,
                    i <= a@.len(),
                    forall|k: Seq<char>| #[trigger]
                        m@.contains_key(k) == pairs_upto(v, (i / 2) as nat).contains_key(k),
                    forall|k: Seq<char>| #[trigger]
                        m@.contains_key(k) ==> m@[k]@ == pairs_upto(v, (i / 2) as nat)[k],
                decreases a@.len() - i,
            {
                let name = owned(a[i].as_str());
                let value = owned(a[i + 1].as_str());
                proof {
                    assert(v[i as int] == a@[i as int]@);
                    assert(v[i + 1] == a@[i + 1]@);
                    assert((i + 2) / 2 == i / 2 + 1);
                    assert(pairs_upto(v, ((i + 2) / 2) as nat) == pairs_upto(v, (i / 2) as nat).insert(
                        v[i as int],
                        v[i + 1],
                    ));
                }
                m.insert(name, value);
                i = i + 2;
            }
            proof {
                assert((i / 2) as nat == v.len() / 2);
            }
            m
        },
    }
}

/// The markup shown for an element with a lowercased tag name:
/// `<name></name>`.
pub fn outer_html_for(lower_name: &str) -> (r: String)
    ensures
        r@ == "<"@ + lower_name@ + "></"@ + lower_name@ + ">"@,
{
    let open = concat_str("<", lower_name);
    let open_closed = concat_str(open.as_str(), "></");
    let with_name = concat_str(open_closed.as_str(), lower_name);
    concat_str(with_name.as_str(), ">")
}

/// The error for a node that an edit names as its source.
pub open spec fn source_not_found(r: ProtocolError, id: u32) -> bool {
    r matches ProtocolError::ServerError(code, m) && code == -32000 && m@ == "Source node "@
        + decimal_digits(id as nat) + " not found"@
}

/// The error for a node that an edit names as its target.
pub open spec fn target_not_found(r: ProtocolError, id: u32) -> bool {
    r matches ProtocolError::ServerError(code, m) && code == -32000 && m@ == "Target node "@
        + decimal_digits(id as nat) + " not found"@
}

fn missing(prefix: &str, id: u32) -> (e: ProtocolError)
    ensures
        e matches ProtocolError::ServerError(code, m) && code == -32000 && m@ == prefix@
            + decimal_digits(id as nat) + " not found"@,
{
    let digits = crate::text::decimal_string(id as u64);
    let head = concat_str(prefix, digits.as_str());
    ProtocolError::ServerError(-32000, concat_str(head.as_str(), " not found"))
}

/// The elements panel.
#[derive(Debug)]
pub struct ElementsInspector {
    browser: MockBrowser,
    element_state: ElementState,
}

impl ElementsInspector {
    pub closed spec fn page(&self) -> MockBrowser {
        self.browser
    }

    pub closed spec fn state(&self) -> ElementState {
        self.element_state
    }

    /// The panel's invariant: the page is well formed.
    pub closed spec fn wf(&self) -> bool {
        self.browser.wf()
    }

    /// A panel over the test page, in the default state.
    pub fn new() -> (p: Self)
        ensures
            p.wf(),
            fresh_page(p.page()),
            p.state().selected_element is None,
            p.state().hovered_element is None,
            !p.state().inspect_mode_enabled,
            p.state().style_modifications@.len() == 0,
    {
        ElementsInspector { browser: MockBrowser::new(), element_state: ElementState::default() }
    }

    /// A panel over a given page, in the default state.
    pub fn with_browser(browser: MockBrowser) -> (p: Self)
        requires
            browser.wf(),
        ensures
            p.wf(),
            p.page() == browser,
            p.state().selected_element is None,
            !p.state().inspect_mode_enabled,
            p.state().style_modifications@.len() == 0,
    {
        ElementsInspector { browser, element_state: ElementState::default() }
    }

    /// The domain's name.
    pub fn name(&self) -> (n: &'static str)
        ensures
            n@ == "ElementsInspector"@,
    {
        "ElementsInspector"
    }

    /// The page.
    pub fn browser(&self) -> (b: &MockBrowser)
        ensures
            *b == self.page(),
    {
        &self.browser
    }

    /// The panel's state.
    pub fn get_element_state(&self) -> (s: &ElementState)
        ensures
            *s == self.state(),
    {
        &self.element_state
    }

    /// A node's details: its name, DOM kind number, attributes as a map
    /// and child count (zero when unknown). Refused for a missing node.
    pub fn get_element_info(&self, node_id: NodeId) -> (r: Result<ElementInfo, ProtocolError>)
        requires
            self.wf(),
        ensures
            !exists_on(self.page(), node_id) ==> (r matches Err(e) && node_not_found(e, node_id.0)),
            exists_on(self.page(), node_id) ==> (r matches Ok(info) && {
                let n = self.page().node_infos()[node_id.0 - 1];
                &&& info.node_id == node_id
                &&& info.tag_name@ == n.name
                &&& info.node_type == node_type_number(n.kind)
                &&& info.attributes@.dom() == node_attribute_map(n).dom()
                &&& forall|k: Seq<char>| #[trigger]
                    info.attributes@.contains_key(k) ==> info.attributes@[k]@ == node_attribute_map(n)[k]
                &&& info.child_count == (match n.child_count {
                    Some(c) => c,
                    None => 0u32,
                })
                &&& info.inner_html is None
                &&& info.outer_html is None
                &&& !info.has_shadow_roots
                &&& !info.is_content_editable
            }),
    {
        let node = match self.browser.get_node(node_id) {
            Some(n) => n,
            None => {
                return Err(not_found(node_id.0));
            },
        };
        let attributes = attributes_as_map(&node.attributes);
        proof {
            let n = self.page().node_infos()[node_id.0 - 1];
            assert(attributes@.dom() =~= node_attribute_map(n).dom());
        }
        Ok(
            ElementInfo {
                node_id,
                tag_name: node.node_name,
                node_type: node.node_type.code(),
                attributes,
                inner_html: None,
                outer_html: None,
                child_count: match node.child_node_count {
                    Some(c) => c,
                    None => 0,
                },
                has_shadow_roots: false,
                is_content_editable: false,
            },
        )
    }

    /// A node's markup, `<name></name>` with the name in lowercase. Refused
    /// for a missing node.
    pub fn get_outer_html(&self, node_id: NodeId) -> (r: Result<String, ProtocolError>)
        requires
            self.wf(),
        ensures
            !exists_on(self.page(), node_id) ==> (r matches Err(e) && node_not_found(e, node_id.0)),
            exists_on(self.page(), node_id) ==> (r matches Ok(html) && {
                let lower = lowercase(self.page().node_infos()[node_id.0 - 1].name);
                html@ == "<"@ + lower + "></"@ + lower + ">"@
            }),
    {
        let node = match self.browser.get_node(node_id) {
            Some(n) => n,
            None => {
                return Err(not_found(node_id.0));
            },
        };
        let lower = to_lower(node.node_name.as_str());
        Ok(outer_html_for(lower.as_str()))
    }

    /// Accepts new markup for an existing node; the page is left as it is.
    /// Refused for a missing node, then for empty markup.
    pub fn set_outer_html(&self, node_id: NodeId, outer_html: &str) -> (r: Result<(), ProtocolError>)
        requires
            self.wf(),
        ensures
            !exists_on(self.page(), node_id) ==> (r matches Err(e) && node_not_found(e, node_id.0)),
            exists_on(self.page(), node_id) && outer_html@.len() == 0 ==> (r matches Err(
                ProtocolError::InvalidParams(m),
            ) && m@ == "outerHTML cannot be empty"@),
            exists_on(self.page(), node_id) && outer_html@.len() > 0 ==> r is Ok,
    {
        if !self.browser.node_exists(node_id) {
            return Err(not_found(node_id.0));
        }
        if outer_html.unicode_len() == 0 {
            return Err(ProtocolError::InvalidParams(owned("outerHTML cannot be empty")));
        }
        Ok(())
    }

    /// Accepts a new value for an existing node; the page is left as it is.
    pub fn set_node_value(&self, node_id: NodeId, value: &str) -> (r: Result<(), ProtocolError>)
        requires
            self.wf(),
        ensures
            !exists_on(self.page(), node_id) ==> (r matches Err(e) && node_not_found(e, node_id.0)),
            exists_on(self.page(), node_id) ==> r is Ok,
    {
        if !self.browser.node_exists(node_id) {
            return Err(not_found(node_id.0));
        }
        Ok(())
    }

    /// Accepts a new tag name for an existing node and gives back its id.
    pub fn set_node_name(&self, node_id: NodeId, name: &str) -> (r: Result<NodeId, ProtocolError>)
        requires
            self.wf(),
        ensures
            !exists_on(self.page(), node_id) ==> (r matches Err(e) && node_not_found(e, node_id.0)),
            exists_on(self.page(), node_id) ==> r == Ok::<NodeId, ProtocolError>(node_id),
    {
        if !self.browser.node_exists(node_id) {
            return Err(not_found(node_id.0));
        }
        Ok(node_id)
    }

    /// Accepts the removal of an existing node; the page is left as it is.
    pub fn remove_node(&self, node_id: NodeId) -> (r: Result<(), ProtocolError>)
        requires
            self.wf(),
        ensures
            !exists_on(self.page(), node_id) ==> (r matches Err(e) && node_not_found(e, node_id.0)),
            exists_on(self.page(), node_id) ==> r is Ok,
    {
        if !self.browser.node_exists(node_id) {
            return Err(not_found(node_id.0));
        }
        Ok(())
    }

    /// A copy of a node under a target: the copy's id is the source's plus
    /// 1000. Refused for a missing source, then for a missing target.
    pub fn copy_to(&self, node_id: NodeId, target_node_id: NodeId, insert_before_node_id: Option<NodeId>) -> (r: Result<NodeId, ProtocolError>)
        requires
            self.wf(),
        ensures
            !exists_on(self.page(), node_id) ==> (r matches Err(e) && source_not_found(e, node_id.0)),
            exists_on(self.page(), node_id) && !exists_on(self.page(), target_node_id) ==> (r matches Err(e)
                && target_not_found(e, target_node_id.0)),
            exists_on(self.page(), node_id) && exists_on(self.page(), target_node_id) ==> (r matches Ok(
                id,
            ) && id.0 == node_id.0 + 1000),
    {
        if !self.browser.node_exists(node_id) {
            return Err(missing("Source node ", node_id.0));
        }
        if !self.browser.node_exists(target_node_id) {
            return Err(missing("Target node ", target_node_id.0));
        }
        proof {
            self.browser.lemma_size();
        }
        Ok(NodeId(node_id.0 + 1000))
    }

    /// Moves a node under a target and gives back its id. Refused for a
    /// missing source, then for a missing target.
    pub fn move_to(&self, node_id: NodeId, target_node_id: NodeId, insert_before_node_id: Option<NodeId>) -> (r: Result<NodeId, ProtocolError>)
        requires
            self.wf(),
        ensures
            !exists_on(self.page(), node_id) ==> (r matches Err(e) && source_not_found(e, node_id.0)),
            exists_on(self.page(), node_id) && !exists_on(self.page(), target_node_id) ==> (r matches Err(e)
                && target_not_found(e, target_node_id.0)),
            exists_on(self.page(), node_id) && exists_on(self.page(), target_node_id) ==> r == Ok::<
                NodeId,
                ProtocolError,
            >(node_id),
    {
        if !self.browser.node_exists(node_id) {
            return Err(missing("Source node ", node_id.0));
        }
        if !self.browser.node_exists(target_node_id) {
            return Err(missing("Target node ", target_node_id.0));
        }
        Ok(node_id)
    }

    /// Records an inline style text for a node, as a `style` modification,
    /// and gives back the text. Refused for a missing node, which records
    /// nothing.
    pub fn set_style_text(&mut self, node_id: NodeId, style_text: &str) -> (r: Result<String, ProtocolError>)
        requires
            old(self).wf(),
        ensures
            final(self).wf(),
            final(self).page() == old(self).page(),
            final(self).state().selected_element == old(self).state().selected_element,
            final(self).state().hovered_element == old(self).state().hovered_element,
            final(self).state().inspect_mode_enabled == old(self).state().inspect_mode_enabled,
            !exists_on(old(self).page(), node_id) ==> (r matches Err(e) && node_not_found(e, node_id.0)
                && final(self).state().style_modifications@ == old(self).state().style_modifications@),
            exists_on(old(self).page(), node_id) ==> (r matches Ok(text) && text@ == style_text@ && {
                let before = old(self).state().style_modifications@;
                let after = final(self).state().style_modifications@;
                &&& after.len() == before.len() + 1
                &&& after.take(before.len() as int) == before
                &&& after.last().0 == node_id
                &&& after.last().1.property_name@ == "style"@
                &&& after.last().1.property_value@ == style_text@
                &&& after.last().1.priority is None
            }),
    {
        if !self.browser.node_exists(node_id) {
            return Err(not_found(node_id.0));
        }
        let modification = StyleModification {
            property_name: owned("style"),
            property_value: owned(style_text),
            priority: None,
        };
        let ghost before = self.element_state.style_modifications@;
        self.element_state.style_modifications.push((node_id, modification));
        proof {
            assert(self.element_state.style_modifications@.take(before.len() as int) =~= before);
        }
        Ok(owned(style_text))
    }

    /// Turns the inspect mode on and gives back the highlight it uses: the
    /// one given, else the default.
    pub fn enable_inspect_mode(&mut self, highlight_config: Option<HighlightConfig>) -> (c: HighlightConfig)
        requires
            old(self).wf(),
        ensures
            final(self).wf(),
            final(self).page() == old(self).page(),
            final(self).state().inspect_mode_enabled,
            final(self).state().selected_element == old(self).state().selected_element,
            final(self).state().hovered_element == old(self).state().hovered_element,
            final(self).state().style_modifications@ == old(self).state().style_modifications@,
            highlight_config matches Some(h) ==> c == h,
            highlight_config is None ==> c.show_info && !c.show_rulers && c.content_color is Some,
    {
        self.element_state.inspect_mode_enabled = true;
        match highlight_config {
            Some(h) => h,
            None => HighlightConfig::default(),
        }
    }

    /// Turns the inspect mode off and forgets the hovered element.
    pub fn disable_inspect_mode(&mut self)
        requires
            old(self).wf(),
        ensures
            final(self).wf(),
            final(self).page() == old(self).page(),
            !final(self).state().inspect_mode_enabled,
            final(self).state().hovered_element is None,
            final(self).state().selected_element == old(self).state().selected_element,
            final(self).state().style_modifications@ == old(self).state().style_modifications@,
    {
        self.element_state.inspect_mode_enabled = false;
        self.element_state.hovered_element = None;
    }

    /// Selects an existing node and gives back its id.
    pub fn select_element(&mut self, node_id: NodeId) -> (r: Result<NodeId, ProtocolError>)
        requires
            old(self).wf(),
        ensures
            final(self).wf(),
            final(self).page() == old(self).page(),
            final(self).state().inspect_mode_enabled == old(self).state().inspect_mode_enabled,
            final(self).state().hovered_element == old(self).state().hovered_element,
            final(self).state().style_modifications@ == old(self).state().style_modifications@,
            !exists_on(old(self).page(), node_id) ==> (r matches Err(e) && node_not_found(e, node_id.0)
                && final(self).state().selected_element == old(self).state().selected_element),
            exists_on(old(self).page(), node_id) ==> (r == Ok::<NodeId, ProtocolError>(node_id)
                && final(self).state().selected_element == Some(node_id)),
    {
        if !self.browser.node_exists(node_id) {
            return Err(not_found(node_id.0));
        }
        self.element_state.selected_element = Some(node_id);
        Ok(node_id)
    }
}

} // verus!
