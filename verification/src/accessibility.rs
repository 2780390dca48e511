//! The accessibility view of the simulated page: accessibility nodes,
//! ARIA attributes read from DOM attributes, and a contrast report.

use vstd::prelude::*;
use crate::dom::{NodeId, info, string_views};
use crate::mock_browser::{fresh_page, MockBrowser};
use crate::protocol::ProtocolError;
use crate::text::{
    chars_of, chars_start_with, concat_str, decimal_digits, decimal_string, lowercase, owned, str_eq,
    to_lower,
};

verus! {

/// The kind of an accessibility value.
#[derive(Debug, Clone, Copy, PartialEq, Eq, Structural)]
pub enum AXValueType {
    Boolean,
    Tristate,
    BooleanOrUndefined,
    Idref,
    IdrefList,
    Integer,
    Node,
    NodeList,
    Number,
    String,
    ComputedString,
    Token,
    TokenList,
    DomRelation,
    Role,
    InternalRole,
    ValueUndefined,
}

/// A plain value carried by an accessibility value.
#[derive(Debug)]
pub enum AXScalar {
    Text(String),
    Integer(i64),
    Boolean(bool),
}

/// A node an accessibility value refers to.
#[derive(Debug)]
pub struct AXRelatedNode {
    pub backend_dom_node_id: NodeId,
    pub idref: Option<String>,
    pub text: Option<String>,
}

/// Where a computed value came from.
#[derive(Debug, Clone, Copy, PartialEq, Eq, Structural)]
pub enum AXValueSourceType {
    Attribute,
    Implicit,
    Style,
    Contents,
    Placeholder,
    RelatedElement,
}

/// The native source of a computed value.
#[derive(Debug, Clone, Copy, PartialEq, Eq, Structural)]
pub enum AXValueNativeSourceType {
    Description,
    Figcaption,
    Label,
    Labelfor,
    Labelwrapped,
    Legend,
    Rubyannotation,
    Tablecaption,
    Title,
    Other,
}

/// One source of a computed value.
#[derive(Debug)]
pub struct AXValueSource {
    pub source_type: AXValueSourceType,
    pub value: Option<AXValue>,
    pub attribute: Option<String>,
    pub attribute_value: Option<AXValue>,
    pub superseded: bool,
    pub native_source: Option<AXValueNativeSourceType>,
    pub native_source_value: Option<AXValue>,
    pub invalid: bool,
    pub invalid_reason: Option<String>,
}

/// An accessibility value.
#[derive(Debug)]
pub struct AXValue {
    pub value_type: AXValueType,
    pub value: Option<AXScalar>,
    pub related_nodes: Option<Vec<AXRelatedNode>>,
    pub sources: Option<Vec<AXValueSource>>,
}

/// The name of an accessibility property.
#[derive(Debug, Clone, Copy, PartialEq, Eq, Structural)]
pub enum AXPropertyName {
    Busy,
    Disabled,
    Editable,
    Focusable,
    Focused,
    Hidden,
    HiddenRoot,
    Invalid,
    Keyshortcuts,
    Settable,
    Roledescription,
    Live,
    Atomic,
    Relevant,
    Root,
    Autocomplete,
    HasPopup,
    Level,
    Multiselectable,
    Orientation,
    Multiline,
    Readonly,
    Required,
    Valuemin,
    Valuemax,
    Valuetext,
    Checked,
    Expanded,
    Modal,
    Pressed,
    Selected,
    Reason,
}

/// An accessibility property.
#[derive(Debug)]
pub struct AXProperty {
    pub name: AXPropertyName,
    pub value: AXValue,
}

/// An accessibility node.
#[derive(Debug)]
pub struct AXNode {
    pub node_id: String,
    pub ignored: bool,
    pub ignored_reasons: Option<Vec<AXProperty>>,
    pub role: Option<AXValue>,
    pub name: Option<AXValue>,
    pub description: Option<AXValue>,
    pub value: Option<AXValue>,
    pub properties: Vec<AXProperty>,
    pub child_ids: Option<Vec<String>>,
    pub backend_dom_node_id: Option<NodeId>,
}

/// A color with its alpha as the bits of a float.
#[derive(Debug, Clone, Copy, PartialEq, Eq, Structural)]
pub struct RGBA {
    pub r: u8,
    pub g: u8,
    pub b: u8,
    pub alpha_bits: u64,
}

impl RGBA {
    /// A color from its components, the alpha given by its float bits.
    pub fn new(r: u8, g: u8, b: u8, alpha_bits: u64) -> (c: Self)
        ensures
            c == (RGBA { r, g, b, alpha_bits }),
    {
        RGBA { r, g, b, alpha_bits }
    }
}

/// A contrast report; the ratio is the bits of a float.
#[derive(Debug, Clone, Copy, PartialEq, Eq, Structural)]
pub struct ContrastInfo {
    pub contrast_ratio_bits: u64,
    pub foreground_color: RGBA,
    pub background_color: RGBA,
    pub aa_normal: bool,
    pub aa_large: bool,
    pub aaa_normal: bool,
    pub aaa_large: bool,
}

/// One ARIA attribute.
#[derive(Debug)]
pub struct AriaAttribute {
    pub name: String,
    pub value: String,
}

/// The ARIA attributes of a node.
#[derive(Debug)]
pub struct AriaAttributesInfo {
    pub node_id: NodeId,
    pub role: Option<String>,
    pub aria_label: Option<String>,
    pub aria_labelledby: Option<String>,
    pub aria_describedby: Option<String>,
    pub aria_live: Option<String>,
    pub aria_expanded: Option<bool>,
    pub aria_hidden: Option<bool>,
    pub aria_disabled: Option<bool>,
    pub all_attributes: Vec<AriaAttribute>,
}

/// The inspector's own state.
#[derive(Debug, Clone, Copy, PartialEq, Eq, Structural)]
pub struct AccessibilityState {
    pub enabled: bool,
    pub selected_node: Option<NodeId>,
}

// ---------------------------------------------------------------------------
// Specifications
// ---------------------------------------------------------------------------

/// Whether a value is a text value of a kind.
pub open spec fn is_text_value(v: AXValue, kind: AXValueType, text: Seq<char>) -> bool {
    &&& v.value_type == kind
    &&& v.value matches Some(AXScalar::Text(t)) && t@ == text
    &&& v.related_nodes is None
    &&& v.sources is None
}

/// Whether an optional value is a text value of a kind.
pub open spec fn has_text(v: Option<AXValue>, kind: AXValueType, text: Seq<char>) -> bool {
    v matches Some(x) && is_text_value(x, kind, text)
}

/// Whether a node is the plain node `id` with a role, an optional
/// computed name, children and a DOM node.
pub open spec fn is_ax_node(
    n: AXNode,
    id: Seq<char>,
    role: Seq<char>,
    name: Option<Seq<char>>,
    children: Option<Seq<Seq<char>>>,
    dom: u32,
) -> bool {
    &&& n.node_id@ == id
    &&& !n.ignored
    &&& n.ignored_reasons is None
    &&& has_text(n.role, AXValueType::Role, role)
    &&& match name {
        Some(t) => has_text(n.name, AXValueType::ComputedString, t),
        None => n.name is None,
    }
    &&& n.description is None
    &&& n.value is None
    &&& match children {
        Some(c) => n.child_ids matches Some(v) && string_views(v@) == c,
        None => n.child_ids is None,
    }
    &&& n.backend_dom_node_id == Some(NodeId(dom))
}

/// The simulated accessibility tree: a web area `Test Page` (node 1) with
/// a level-one heading `Hello World` (node 4) and a generic container
/// (node 6) holding the paragraph `This is a test page` (node 7).
pub open spec fn full_ax_tree(nodes: Seq<AXNode>) -> bool {
    &&& nodes.len() == 4
    &&& is_ax_node(nodes[0], "ax-1"@, "WebArea"@, Some("Test Page"@), Some(seq!["ax-2"@, "ax-3"@]), 1)
    &&& nodes[0].properties@.len() == 0
    &&& is_ax_node(nodes[1], "ax-2"@, "heading"@, Some("Hello World"@), None, 4)
    &&& nodes[1].properties@.len() == 1
    &&& nodes[1].properties@[0].name == AXPropertyName::Level
    &&& nodes[1].properties@[0].value.value_type == AXValueType::Integer
    &&& nodes[1].properties@[0].value.value matches Some(AXScalar::Integer(1))
    &&& is_ax_node(nodes[2], "ax-3"@, "generic"@, None, Some(seq!["ax-4"@]), 6)
    &&& nodes[2].properties@.len() == 0
    &&& is_ax_node(nodes[3], "ax-4"@, "paragraph"@, Some("This is a test page"@), None, 7)
    &&& nodes[3].properties@.len() == 0
}

/// The role of an element by its lowercased name.
pub open spec fn role_for(lower_name: Seq<char>) -> Seq<char> {
    if lower_name == "h1"@ {
        "heading"@
    } else if lower_name == "p"@ {
        "paragraph"@
    } else if lower_name == "button"@ {
        "button"@
    } else if lower_name == "a"@ {
        "link"@
    } else if lower_name == "input"@ {
        "textbox"@
    } else if lower_name == "html"@ {
        "WebArea"@
    } else {
        "generic"@
    }
}

/// The error for a missing node.
pub open spec fn node_not_found(r: ProtocolError, id: u32) -> bool {
    r matches ProtocolError::ServerError(code, m) && code == -32000 && m@ == "Node "@ + decimal_digits(
        id as nat,
    ) + " not found"@
}

/// ARIA attributes as values.
#[verifier::ext_equal]
pub struct AriaView {
    pub role: Option<Seq<char>>,
    pub label: Option<Seq<char>>,
    pub labelledby: Option<Seq<char>>,
    pub describedby: Option<Seq<char>>,
    pub live: Option<Seq<char>>,
    pub expanded: Option<bool>,
    pub hidden: Option<bool>,
    pub disabled: Option<bool>,
    pub all: Seq<(Seq<char>, Seq<char>)>,
}

/// No ARIA attributes.
pub open spec fn no_aria() -> AriaView {
    AriaView {
        role: None,
        label: None,
        labelledby: None,
        describedby: None,
        live: None,
        expanded: None,
        hidden: None,
        disabled: None,
        all: Seq::empty(),
    }
}

/// The ARIA attributes after one more name/value pair: `role` sets the
/// role; a name starting with `aria-` is listed, and the known ones set
/// their field (the booleans are whether the value is `true`).
pub open spec fn aria_step(a: AriaView, name: Seq<char>, value: Seq<char>) -> AriaView {
    if name == "role"@ {
        AriaView { role: Some(value), ..a }
    } else if name.len() >= 5 && name.take(5) == "aria-"@ {
        let listed = AriaView { all: a.all.push((name, value)), ..a };
        if name == "aria-label"@ {
            AriaView { label: Some(value), ..listed }
        } else if name == "aria-labelledby"@ {
            AriaView { labelledby: Some(value), ..listed }
        } else if name == "aria-describedby"@ {
            AriaView { describedby: Some(value), ..listed }
        } else if name == "aria-live"@ {
            AriaView { live: Some(value), ..listed }
        } else if name == "aria-expanded"@ {
            AriaView { expanded: Some(value == "true"@), ..listed }
        } else if name == "aria-hidden"@ {
            AriaView { hidden: Some(value == "true"@), ..listed }
        } else if name == "aria-disabled"@ {
            AriaView { disabled: Some(value == "true"@), ..listed }
        } else {
            listed
        }
    } else {
        a
    }
}

/// The ARIA attributes of the first `k` name/value pairs.
pub open spec fn aria_of(attrs: Seq<Seq<char>>, k: int) -> AriaView
    decreases k,
{
    if k <= 0 || 2 * k > attrs.len() {
        no_aria()
    } else {
        aria_step(aria_of(attrs, k - 1), attrs[2 * k - 2], attrs[2 * k - 1])
    }
}

/// The view of an ARIA record.
pub open spec fn aria_view(i: AriaAttributesInfo) -> AriaView {
    AriaView {
        role: match i.role {
            Some(s) => Some(s@),
            None => None,
        },
        label: match i.aria_label {
            Some(s) => Some(s@),
            None => None,
        },
        labelledby: match i.aria_labelledby {
            Some(s) => Some(s@),
            None => None,
        },
        describedby: match i.aria_describedby {
            Some(s) => Some(s@),
            None => None,
        },
        live: match i.aria_live {
            Some(s) => Some(s@),
            None => None,
        },
        expanded: i.aria_expanded,
        hidden: i.aria_hidden,
        disabled: i.aria_disabled,
        all: i.all_attributes@.map_values(|x: AriaAttribute| (x.name@, x.value@)),
    }
}

// ---------------------------------------------------------------------------
// Builders
// ---------------------------------------------------------------------------

fn text_value(kind: AXValueType, text: &str) -> (v: AXValue)
    ensures
        is_text_value(v, kind, text@),
{
    AXValue { value_type: kind, value: Some(AXScalar::Text(owned(text))), related_nodes: None, sources: None }
}

fn plain_node(id: String, role: &str, name: Option<&str>, children: Option<Vec<String>>, dom: u32) -> (n: AXNode)
    ensures
        is_ax_node(
            n,
            id@,
            role@,
            match name {
                Some(t) => Some(t@),
                None => None,
            },
            match children {
                Some(c) => Some(string_views(c@)),
                None => None,
            },
            dom,
        ),
        n.properties@.len() == 0,
{
    AXNode {
        node_id: id,
        ignored: false,
        ignored_reasons: None,
        role: Some(text_value(AXValueType::Role, role)),
        name: match name {
            Some(t) => Some(text_value(AXValueType::ComputedString, t)),
            None => None,
        },
        description: None,
        value: None,
        properties: Vec::new(),
        child_ids: children,
        backend_dom_node_id: Some(NodeId(dom)),
    }
}

fn one_id(a: &str) -> (v: Vec<String>)
    ensures
        string_views(v@) == seq![a@],
{
    let mut v: Vec<String> = Vec::new();
    v.push(owned(a));
    proof {
        assert(string_views(v@) =~= seq![a@]);
    }
    v
}

/// `ax-<n>`.
fn ax_id(n: u32) -> (s: String)
    ensures
        s@ == "ax-"@ + decimal_digits(n as nat),
{
    let digits = decimal_string(n as u64);
    concat_str("ax-", digits.as_str())
}

pub(crate) fn not_found(id: u32) -> (e: ProtocolError)
    ensures
        node_not_found(e, id),
{
    let digits = decimal_string(id as u64);
    let head = concat_str("Node ", digits.as_str());
    ProtocolError::ServerError(-32000, concat_str(head.as_str(), " not found"))
}

/// The role of an element by its lowercased name (`generic` for anything
/// not listed).
pub fn role_for_lowercase(lower_name: &str) -> (r: String)
    ensures
        r@ == role_for(lower_name@),
{
    if str_eq(lower_name, "h1") {
        owned("heading")
    } else if str_eq(lower_name, "p") {
        owned("paragraph")
    } else if str_eq(lower_name, "button") {
        owned("button")
    } else if str_eq(lower_name, "a") {
        owned("link")
    } else if str_eq(lower_name, "input") {
        owned("textbox")
    } else if str_eq(lower_name, "html") {
        owned("WebArea")
    } else {
        owned("generic")
    }
}

// ---------------------------------------------------------------------------
// The inspector
// ---------------------------------------------------------------------------

/// The Accessibility domain over a simulated browser.
#[derive(Debug)]
pub struct AccessibilityInspector {
    browser: MockBrowser,
    state: AccessibilityState,
}

impl AccessibilityInspector {
    pub closed spec fn page(&self) -> MockBrowser {
        self.browser
    }

    pub closed spec fn state_view(&self) -> AccessibilityState {
        self.state
    }

    /// The inspector's invariant: the page is well formed.
    pub closed spec fn wf(&self) -> bool {
        self.browser.wf()
    }

    /// An inspector over the test page, disabled.
    pub fn new() -> (a: Self)
        ensures
            a.wf(),
            fresh_page(a.page()),
            !a.state_view().enabled,
            a.state_view().selected_node is None,
    {
        AccessibilityInspector {
            browser: MockBrowser::new(),
            state: AccessibilityState { enabled: false, selected_node: None },
        }
    }

    /// An inspector over a given page, disabled.
    pub fn with_browser(browser: MockBrowser) -> (a: Self)
        requires
            browser.wf(),
        ensures
            a.wf(),
            a.page() == browser,
            !a.state_view().enabled,
            a.state_view().selected_node is None,
    {
        AccessibilityInspector {
            browser,
            state: AccessibilityState { enabled: false, selected_node: None },
        }
    }

    /// The domain's name.
    pub fn name(&self) -> (n: &'static str)
        ensures
            n@ == "AccessibilityInspector"@,
    {
        "AccessibilityInspector"
    }

    /// The state.
    pub fn get_state(&self) -> (s: AccessibilityState)
        ensures
            s == self.state_view(),
    {
        self.state
    }

    /// The page.
    pub fn browser(&self) -> (b: &MockBrowser)
        ensures
            *b == self.page(),
    {
        &self.browser
    }

    /// Enables the domain.
    pub fn enable(&mut self)
        requires
            old(self).wf(),
        ensures
            final(self).wf(),
            final(self).state_view() == (AccessibilityState { enabled: true, ..old(self).state_view() }),
            final(self).page() == old(self).page(),
    {
        self.state.enabled = true;
    }

    /// Disables the domain and clears the selection.
    pub fn disable(&mut self)
        requires
            old(self).wf(),
        ensures
            final(self).wf(),
            final(self).state_view() == (AccessibilityState { enabled: false, selected_node: None }),
            final(self).page() == old(self).page(),
    {
        self.state.enabled = false;
        self.state.selected_node = None;
    }

    /// The simulated accessibility tree.
    pub fn get_full_ax_tree(&self) -> (r: Vec<AXNode>)
        ensures
            full_ax_tree(r@),
    {
        let mut nodes: Vec<AXNode> = Vec::new();
        let mut root_children: Vec<String> = Vec::new();
        root_children.push(owned("ax-2"));
        root_children.push(owned("ax-3"));
        assert(string_views(root_children@) =~= seq!["ax-2"@, "ax-3"@]);
        nodes.push(plain_node(owned("ax-1"), "WebArea", Some("Test Page"), Some(root_children), 1));
        let mut heading = plain_node(owned("ax-2"), "heading", Some("Hello World"), None, 4);
        heading.properties.push(
            AXProperty {
                name: AXPropertyName::Level,
                value: AXValue {
                    value_type: AXValueType::Integer,
                    value: Some(AXScalar::Integer(1)),
                    related_nodes: None,
                    sources: None,
                },
            },
        );
        nodes.push(heading);
        nodes.push(plain_node(owned("ax-3"), "generic", None, Some(one_id("ax-4")), 6));
        nodes.push(plain_node(owned("ax-4"), "paragraph", Some("This is a test page"), None, 7));
        nodes
    }

    /// The accessibility node of a DOM node: `ax-<id>` with the role its
    /// lowercased name gives. Refused (server error -32000) for a missing
    /// node.
    pub fn get_ax_node_for_dom_node(&self, node_id: NodeId) -> (r: Result<AXNode, ProtocolError>)
        requires
            self.wf(),
        ensures
            !(1 <= node_id.0 <= self.page().node_infos().len()) ==> (r matches Err(e) && node_not_found(
                e,
                node_id.0,
            )),
            1 <= node_id.0 <= self.page().node_infos().len() ==> (r matches Ok(n) && is_ax_node(
                n,
                "ax-"@ + decimal_digits(node_id.0 as nat),
                role_for(lowercase(self.page().node_infos()[node_id.0 - 1].name)),
                None,
                None,
                node_id.0,
            ) && n.properties@.len() == 0),
    {
        if !self.browser.node_exists(node_id) {
            return Err(not_found(node_id.0));
        }
        let node = match self.browser.get_node(node_id) {
            Some(n) => n,
            None => {
                return Err(not_found(node_id.0));
            },
        };
        let lower = to_lower(node.node_name.as_str());
        let role = role_for_lowercase(lower.as_str());
        Ok(plain_node(ax_id(node_id.0), role.as_str(), None, None, node_id.0))
    }

    /// The ARIA attributes of a DOM node, read from its name/value pairs in
    /// order. Refused (server error -32000) for a missing node.
    pub fn get_aria_attributes(&self, node_id: NodeId) -> (r: Result<AriaAttributesInfo, ProtocolError>)
        requires
            self.wf(),
        ensures
            !(1 <= node_id.0 <= self.page().node_infos().len()) ==> (r matches Err(e) && node_not_found(
                e,
                node_id.0,
            )),
            1 <= node_id.0 <= self.page().node_infos().len() ==> (r matches Ok(a) && a.node_id == node_id
                && aria_view(a) == match self.page().node_infos()[node_id.0 - 1].attributes {
                Some(attrs) => aria_of(attrs, (attrs.len() / 2) as int),
                None => no_aria(),
            }),
    {
        if !self.browser.node_exists(node_id) {
            return Err(not_found(node_id.0));
        }
        let node = match self.browser.get_node(node_id) {
            Some(n) => n,
            None => {
                return Err(not_found(node_id.0));
            },
        };
        let mut out = AriaAttributesInfo {
            node_id,
            role: None,
            aria_label: None,
            aria_labelledby: None,
            aria_describedby: None,
            aria_live: None,
            aria_expanded: None,
            aria_hidden: None,
            aria_disabled: None,
            all_attributes: Vec::new(),
        };
        proof {
            assert(aria_view(out) =~~= no_aria());
        }
        match &node.attributes {
            Some(attrs) => {
                let ghost a = string_views(attrs@);
                let len = attrs.len();
                let pairs = len / 2;
                let mut k: usize = 0;
                while k < pairs
                    invariant
                        a == string_views(attrs@),
                        len == attrs@.len(),
                        pairs == attrs@.len() / 2,
                        k <= pairs,
                        out.node_id == node_id,
                        aria_view(out) == aria_of(a, k as int),
                    decreases pairs - k,
                {
                    assert(2 * k + 1 < attrs@.len()) by (nonlinear_arith)
                        requires
                            k < pairs,
                            pairs == attrs@.len() / 2,
                    ;
                    let name = &attrs[2 * k];
                    let value = &attrs[2 * k + 1];
                    assert(a[2 * k as int] == name@ && a[2 * k + 1] == value@);
                    let ghost before = aria_view(out);
                    let nchars = chars_of(name.as_str());
                    let prefix = chars_of("aria-");
                    proof {
                        reveal_strlit("aria-");
                        reveal_strlit("role");
                    }
                    if str_eq(name.as_str(), "role") {
                        out.role = Some(value.clone());
                    } else if chars_start_with(nchars.as_slice(), prefix.as_slice()) {
                        out.all_attributes.push(AriaAttribute { name: name.clone(), value: value.clone() });
                        if str_eq(name.as_str(), "aria-label") {
                            out.aria_label = Some(value.clone());
                        } else if str_eq(name.as_str(), "aria-labelledby") {
                            out.aria_labelledby = Some(value.clone());
                        } else if str_eq(name.as_str(), "aria-describedby") {
                            out.aria_describedby = Some(value.clone());
                        } else if str_eq(name.as_str(), "aria-live") {
                            out.aria_live = Some(value.clone());
                        } else if str_eq(name.as_str(), "aria-expanded") {
                            out.aria_expanded = Some(str_eq(value.as_str(), "true"));
                        } else if str_eq(name.as_str(), "aria-hidden") {
                            out.aria_hidden = Some(str_eq(value.as_str(), "true"));
                        } else if str_eq(name.as_str(), "aria-disabled") {
                            out.aria_disabled = Some(str_eq(value.as_str(), "true"));
                        }
                    }
                    proof {
                        assert(aria_view(out) =~~= aria_step(before, name@, value@));
                    }
                    k = k + 1;
                }
            },
            None => {},
        }
        Ok(out)
    }

    /// The contrast report of a node: black on white, ratio 4.5, passing
    /// AA and large-text AAA but not normal-text AAA. Refused (server error
    /// -32000) for a missing node.
    pub fn get_contrast_info(&self, node_id: NodeId) -> (r: Result<ContrastInfo, ProtocolError>)
        requires
            self.wf(),
        ensures
            !(1 <= node_id.0 <= self.page().node_infos().len()) ==> (r matches Err(e) && node_not_found(
                e,
                node_id.0,
            )),
            1 <= node_id.0 <= self.page().node_infos().len() ==> r == Ok::<ContrastInfo, ProtocolError>(
                ContrastInfo {
                    contrast_ratio_bits: 0x4012_0000_0000_0000,
                    foreground_color: RGBA { r: 0, g: 0, b: 0, alpha_bits: 0x3FF0_0000_0000_0000 },
                    background_color: RGBA { r: 255, g: 255, b: 255, alpha_bits: 0x3FF0_0000_0000_0000 },
                    aa_normal: true,
                    aa_large: true,
                    aaa_normal: false,
                    aaa_large: true,
                },
            ),
    {
        if !self.browser.node_exists(node_id) {
            return Err(not_found(node_id.0));
        }
        Ok(
            ContrastInfo {
                contrast_ratio_bits: 0x4012_0000_0000_0000,
                foreground_color: RGBA { r: 0, g: 0, b: 0, alpha_bits: 0x3FF0_0000_0000_0000 },
                background_color: RGBA { r: 255, g: 255, b: 255, alpha_bits: 0x3FF0_0000_0000_0000 },
                aa_normal: true,
                aa_large: true,
                aaa_normal: false,
                aaa_large: true,
            },
        )
    }

    /// The simulated query: the heading node when the role asked for is
    /// `heading`, nothing otherwise (the name is not consulted).
    pub fn query_ax_tree(&self, accessible_name: Option<&str>, role: Option<&str>) -> (r: Vec<AXNode>)
        ensures
            (role matches Some(x) && x@ == "heading"@) ==> (r@.len() == 1 && is_ax_node(
                r@[0],
                "ax-2"@,
                "heading"@,
                Some("Hello World"@),
                None,
                4,
            )),
            !(role matches Some(x) && x@ == "heading"@) ==> r@.len() == 0,
    {
        let mut nodes: Vec<AXNode> = Vec::new();
        match role {
            Some(x) => {
                if str_eq(x, "heading") {
                    nodes.push(plain_node(owned("ax-2"), "heading", Some("Hello World"), None, 4));
                }
            },
            None => {},
        }
        nodes
    }

    /// The partial tree at a node (the document when none is given): one
    /// generic node `ax-<id>` listing `ax-<id + 1>` as its child. Refused
    /// (server error -32000) for a missing node.
    pub fn get_partial_ax_tree(&self, node_id: Option<NodeId>, depth: Option<i32>) -> (r: Result<Vec<AXNode>, ProtocolError>)
        requires
            self.wf(),
        ensures
            ({
                let id = match node_id {
                    Some(n) => n.0,
                    None => 1u32,
                };
                &&& !(1 <= id <= self.page().node_infos().len()) ==> (r matches Err(e) && node_not_found(e, id))
                &&& 1 <= id <= self.page().node_infos().len() ==> (r matches Ok(v) && v@.len() == 1 && is_ax_node(
                    v@[0],
                    "ax-"@ + decimal_digits(id as nat),
                    "generic"@,
                    None,
                    Some(seq!["ax-"@ + decimal_digits((id + 1) as nat)]),
                    id,
                ))
            }),
    {
        let id = match node_id {
            Some(n) => n,
            None => NodeId(1),
        };
        if !self.browser.node_exists(id) {
            return Err(not_found(id.0));
        }
        proof {
            self.browser.lemma_size();
        }
        let child = ax_id(id.0 + 1);
        let mut children: Vec<String> = Vec::new();
        children.push(child);
        assert(string_views(children@) =~= seq!["ax-"@ + decimal_digits((id.0 + 1) as nat)]);
        let mut v: Vec<AXNode> = Vec::new();
        v.push(plain_node(ax_id(id.0), "generic", None, Some(children), id.0));
        Ok(v)
    }
}

} // verus!
