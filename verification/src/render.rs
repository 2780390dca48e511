//! The render panel: box models, computed and matched styles and the
//! compositing layers of the simulated page.

use vstd::prelude::*;
use crate::accessibility::{node_not_found, not_found};
use crate::dom::NodeId;
use crate::dom_inspector::exists_on;
use crate::mock_browser::{
    BoxModel, ComputedStyles, CssProperty, LayerInfo, MockBrowser, canned_box, canned_layer, fresh_page,
    canned_layers, canned_styles,
};
use crate::protocol::ProtocolError;
use crate::text::{concat_str, owned, str_eq};

verus! {

/// One selector of a rule.
#[derive(Debug)]
pub struct SelectorValue {
    pub text: String,
}

/// The selectors of a rule and their combined text.
#[derive(Debug)]
pub struct SelectorList {
    pub selectors: Vec<SelectorValue>,
    pub text: String,
}

/// A declared property.
#[derive(Debug)]
pub struct CSSPropertyValue {
    pub name: String,
    pub value: String,
}

/// A shorthand property.
#[derive(Debug)]
pub struct ShorthandEntry {
    pub name: String,
    pub value: String,
}

/// A style declaration.
#[derive(Debug)]
pub struct CSSStyle {
    pub css_properties: Vec<CSSPropertyValue>,
    pub shorthand_entries: Vec<ShorthandEntry>,
}

/// A style rule.
#[derive(Debug)]
pub struct CSSRule {
    pub selector_list: SelectorList,
    pub origin: String,
    pub style: CSSStyle,
}

/// A rule that matches a node, with the indices of its matching selectors.
#[derive(Debug)]
pub struct RuleMatch {
    pub rule: CSSRule,
    pub matching_selectors: Vec<u32>,
}

/// The user agent's universal rule: `*` with `display: block` and
/// `margin: 0`, matched by its only selector.
pub open spec fn universal_rule(m: RuleMatch) -> bool {
    let props = m.rule.style.css_properties@;
    &&& m.rule.selector_list.selectors@.len() == 1
    &&& m.rule.selector_list.selectors@[0].text@ == "*"@
    &&& m.rule.selector_list.text@ == "*"@
    &&& m.rule.origin@ == "user-agent"@
    &&& props.len() == 2
    &&& props[0].name@ == "display"@ && props[0].value@ == "block"@
    &&& props[1].name@ == "margin"@ && props[1].value@ == "0"@
    &&& m.rule.style.shorthand_entries@.len() == 0
    &&& m.matching_selectors@ == seq![0u32]
}

/// The error for an unknown layer.
pub open spec fn layer_not_found(r: ProtocolError, id: Seq<char>) -> bool {
    r matches ProtocolError::ServerError(code, m) && code == -32000 && m@ == "Layer "@ + id
        + " not found"@
}

/// The ids of the canned layers.
pub open spec fn is_canned_layer_id(id: Seq<char>) -> bool {
    id == "root-layer"@ || id == "body-layer"@ || id == "container-layer"@
}

fn layer_missing(id: &str) -> (e: ProtocolError)
    ensures
        layer_not_found(e, id@),
{
    let head = concat_str("Layer ", id);
    ProtocolError::ServerError(-32000, concat_str(head.as_str(), " not found"))
}

fn property(name: &str, value: &str) -> (p: CSSPropertyValue)
    ensures
        p.name@ == name@,
        p.value@ == value@,
{
    CSSPropertyValue { name: owned(name), value: owned(value) }
}

/// The position of the layer with a given id.
fn find_layer(layers: &Vec<LayerInfo>, id: &str) -> (r: Option<usize>)
    ensures
        match r {
            Some(i) => i < layers@.len() && layers@[i as int].layer_id@ == id@,
            None => forall|i: int| 0 <= i < layers@.len() ==> layers@[i].layer_id@ != id@,
        },
{
    let mut i: usize = 0;
    while i < layers.len()
        invariant
            i <= layers@.len(),
            forall|j: int| 0 <= j < i ==> layers@[j].layer_id@ != id@,
        decreases layers@.len() - i,
    {
        if str_eq(layers[i].layer_id.as_str(), id) {
            return Some(i);
        }
        i = i + 1;
    }
    None
}

/// The render panel.
#[derive(Debug)]
pub struct RenderInspectorBridge {
    browser: MockBrowser,
}

impl RenderInspectorBridge {
    pub closed spec fn page(&self) -> MockBrowser {
        self.browser
    }

    /// The panel's invariant: the page is well formed.
    pub closed spec fn wf(&self) -> bool {
        self.browser.wf()
    }

    /// A panel over the test page.
    pub fn new() -> (p: Self)
        ensures
            p.wf(),
            fresh_page(p.page()),
    {
        RenderInspectorBridge { browser: MockBrowser::new() }
    }

    /// A panel over a given page.
    pub fn with_browser(browser: MockBrowser) -> (p: Self)
        requires
            browser.wf(),
        ensures
            p.wf(),
            p.page() == browser,
    {
        RenderInspectorBridge { browser }
    }

    /// The domain's name.
    pub fn name(&self) -> (n: &'static str)
        ensures
            n@ == "RenderInspector"@,
    {
        "RenderInspector"
    }

    /// The page.
    pub fn browser(&self) -> (b: &MockBrowser)
        ensures
            *b == self.page(),
    {
        &self.browser
    }

    /// The box model of a node. Refused without a node id (invalid
    /// parameters) and for a missing node.
    pub fn get_box_model(&self, node_id: Option<NodeId>) -> (r: Result<BoxModel, ProtocolError>)
        requires
            self.wf(),
        ensures
            node_id is None ==> (r matches Err(ProtocolError::InvalidParams(m)) && m@ == "nodeId required"@),
            (node_id matches Some(id) && !exists_on(self.page(), id)) ==> (r matches Err(e) && node_not_found(
                e,
                node_id.unwrap().0,
            )),
            (node_id matches Some(id) && exists_on(self.page(), id)) ==> (r matches Ok(b) && canned_box(
                b,
                node_id.unwrap().0 * 10,
            )),
    {
        let id = match node_id {
            Some(id) => id,
            None => {
                return Err(ProtocolError::InvalidParams(owned("nodeId required")));
            },
        };
        match self.browser.get_box_model(id) {
            Some(b) => Ok(b),
            None => Err(not_found(id.0)),
        }
    }

    /// The computed properties of a node. Refused for a missing node.
    pub fn get_computed_style_for_node(&self, node_id: NodeId) -> (r: Result<Vec<CssProperty>, ProtocolError>)
        requires
            self.wf(),
        ensures
            !exists_on(self.page(), node_id) ==> (r matches Err(e) && node_not_found(e, node_id.0)),
            exists_on(self.page(), node_id) ==> (r matches Ok(ps) && canned_styles(ps@)),
    {
        match self.browser.get_computed_styles(node_id) {
            Some(s) => Ok(s.properties),
            None => Err(not_found(node_id.0)),
        }
    }

    /// The rules that match a node: the user agent's universal rule.
    /// Refused for a missing node.
    pub fn get_matched_styles_for_node(&self, node_id: NodeId) -> (r: Result<Vec<RuleMatch>, ProtocolError>)
        requires
            self.wf(),
        ensures
            !exists_on(self.page(), node_id) ==> (r matches Err(e) && node_not_found(e, node_id.0)),
            exists_on(self.page(), node_id) ==> (r matches Ok(ms) && ms@.len() == 1 && universal_rule(ms@[0])),
    {
        if !self.browser.node_exists(node_id) {
            return Err(not_found(node_id.0));
        }
        let mut selectors: Vec<SelectorValue> = Vec::new();
        selectors.push(SelectorValue { text: owned("*") });
        let mut props: Vec<CSSPropertyValue> = Vec::new();
        props.push(property("display", "block"));
        props.push(property("margin", "0"));
        let mut matching: Vec<u32> = Vec::new();
        matching.push(0);
        proof {
            assert(matching@ =~= seq![0u32]);
        }
        let m = RuleMatch {
            rule: CSSRule {
                selector_list: SelectorList { selectors, text: owned("*") },
                origin: owned("user-agent"),
                style: CSSStyle { css_properties: props, shorthand_entries: Vec::new() },
            },
            matching_selectors: matching,
        };
        let mut r: Vec<RuleMatch> = Vec::new();
        r.push(m);
        Ok(r)
    }

    /// The inline style of a node: empty. Refused for a missing node.
    pub fn get_inline_styles_for_node(&self, node_id: NodeId) -> (r: Result<CSSStyle, ProtocolError>)
        requires
            self.wf(),
        ensures
            !exists_on(self.page(), node_id) ==> (r matches Err(e) && node_not_found(e, node_id.0)),
            exists_on(self.page(), node_id) ==> (r matches Ok(s) && s.css_properties@.len() == 0
                && s.shorthand_entries@.len() == 0),
    {
        if !self.browser.node_exists(node_id) {
            return Err(not_found(node_id.0));
        }
        Ok(CSSStyle { css_properties: Vec::new(), shorthand_entries: Vec::new() })
    }

    /// The compositing layers.
    pub fn get_layer_tree(&self) -> (r: Vec<LayerInfo>)
        ensures
            canned_layers(r@),
    {
        self.browser.get_layer_tree()
    }

    /// A snapshot id for a known layer: `snapshot-` and the layer id.
    /// Refused for an unknown layer.
    pub fn compose_layers(&self, layer_id: &str) -> (r: Result<String, ProtocolError>)
        ensures
            is_canned_layer_id(layer_id@) ==> (r matches Ok(s) && s@ == "snapshot-"@ + layer_id@),
            !is_canned_layer_id(layer_id@) ==> (r matches Err(e) && layer_not_found(e, layer_id@)),
    {
        let layers = self.browser.get_layer_tree();
        match find_layer(&layers, layer_id) {
            Some(_) => Ok(concat_str("snapshot-", layer_id)),
            None => {
                proof {
                    assert(layers@[0].layer_id@ != layer_id@);
                    assert(layers@[1].layer_id@ != layer_id@);
                    assert(layers@[2].layer_id@ != layer_id@);
                }
                Err(layer_missing(layer_id))
            },
        }
    }

    /// The layer with a given id. Refused for an unknown layer.
    pub fn get_layer(&self, layer_id: &str) -> (r: Result<LayerInfo, ProtocolError>)
        ensures
            layer_id@ == "root-layer"@ ==> (r matches Ok(l) && canned_layer(
                l,
                "root-layer"@,
                None,
                1,
                0,
                0,
                1920,
                1080,
                "root"@,
            )),
            layer_id@ == "body-layer"@ ==> (r matches Ok(l) && canned_layer(
                l,
                "body-layer"@,
                Some("root-layer"@),
                5,
                0,
                0,
                1920,
                1080,
                "layoutObject"@,
            )),
            layer_id@ == "container-layer"@ ==> (r matches Ok(l) && canned_layer(
                l,
                "container-layer"@,
                Some("body-layer"@),
                6,
                10,
                10,
                800,
                600,
                "transform"@,
            )),
            !is_canned_layer_id(layer_id@) ==> (r matches Err(e) && layer_not_found(e, layer_id@)),
    {
        let mut layers = self.browser.get_layer_tree();
        let ghost all = layers@;
        match find_layer(&layers, layer_id) {
            Some(i) => {
                proof {
                    reveal_strlit("root-layer");
                    reveal_strlit("body-layer");
                    reveal_strlit("container-layer");
                    assert("root-layer"@[0] != "body-layer"@[0]);
                    assert("root-layer"@.len() != "container-layer"@.len());
                    assert("body-layer"@.len() != "container-layer"@.len());
                }
                let l = layers.remove(i);
                assert(l == all[i as int]);
                Ok(l)
            },
            None => {
                proof {
                    assert(layers@[0].layer_id@ != layer_id@);
                    assert(layers@[1].layer_id@ != layer_id@);
                    assert(layers@[2].layer_id@ != layer_id@);
                }
                Err(layer_missing(layer_id))
            },
        }
    }

    /// Starts following the layer tree (nothing to do on the simulated page).
    pub fn enable_layer_tree(&self) {
    }

    /// Stops following the layer tree (nothing to do on the simulated page).
    pub fn disable_layer_tree(&self) {
    }

    /// The box model of a node, if it exists.
    pub fn get_element_box_model(&self, node_id: NodeId) -> (r: Option<BoxModel>)
        requires
            self.wf(),
        ensures
            !exists_on(self.page(), node_id) ==> r is None,
            exists_on(self.page(), node_id) ==> (r matches Some(b) && canned_box(b, node_id.0 * 10)),
    {
        self.browser.get_box_model(node_id)
    }

    /// The computed style of a node, if it exists.
    pub fn get_element_computed_styles(&self, node_id: NodeId) -> (r: Option<ComputedStyles>)
        requires
            self.wf(),
        ensures
            !exists_on(self.page(), node_id) ==> r is None,
            exists_on(self.page(), node_id) ==> (r matches Some(s) && canned_styles(s.properties@)),
    {
        self.browser.get_computed_styles(node_id)
    }

    /// The compositing layers.
    pub fn get_layer_tree_snapshot(&self) -> (r: Vec<LayerInfo>)
        ensures
            canned_layers(r@),
    {
        self.browser.get_layer_tree()
    }
}

} // verus!
