//! The layout panel: flexbox and grid details, their overlays, and box
//! models, over the simulated page.

use vstd::prelude::*;
use crate::accessibility::{RGBA, node_not_found, not_found};
use crate::dom::NodeId;
use crate::dom_inspector::{ALPHA_066, exists_on};
use crate::id_map::{IdMap, without_id};
use crate::mock_browser::{canned_box, fresh_page, BoxModel, MockBrowser};
use crate::protocol::ProtocolError;
use crate::text::owned;

verus! {

/// The bits of 1.0.
pub const ALPHA_ONE: u64 = 0x3FF0_0000_0000_0000;

/// The bits of 0.8.
pub const ALPHA_080: u64 = 0x3FE9_9999_9999_999A;

/// The bits of 0.3.
pub const ALPHA_030: u64 = 0x3FD3_3333_3333_3333;

/// The value that a missing overlay switch takes.
pub fn default_true() -> (b: bool)
    ensures
        b,
{
    true
}

/// A flex item; its grow and shrink factors are the bits of floats.
#[derive(Debug)]
pub struct FlexItemInfo {
    pub node_id: NodeId,
    pub flex_grow_bits: u64,
    pub flex_shrink_bits: u64,
    pub flex_basis: String,
    pub align_self: Option<String>,
    pub order: i32,
}

/// A flex container and its items.
#[derive(Debug)]
pub struct FlexContainerInfo {
    pub node_id: NodeId,
    pub flex_direction: String,
    pub flex_wrap: String,
    pub align_items: String,
    pub justify_content: String,
    pub flex_items: Vec<FlexItemInfo>,
}

/// A grid item's placement.
#[derive(Debug)]
pub struct GridItemInfo {
    pub node_id: NodeId,
    pub grid_column_start: i32,
    pub grid_column_end: i32,
    pub grid_row_start: i32,
    pub grid_row_end: i32,
    pub grid_area: Option<String>,
}

/// The colors of a grid overlay.
#[derive(Debug, Clone, Copy, PartialEq, Eq, Structural)]
pub struct GridOverlayColors {
    pub grid_border_color: RGBA,
    pub row_line_color: RGBA,
    pub column_line_color: RGBA,
    pub row_gap_color: RGBA,
    pub column_gap_color: RGBA,
}

/// The default grid overlay colors.
pub open spec fn default_grid_colors() -> GridOverlayColors {
    GridOverlayColors {
        grid_border_color: RGBA { r: 255, g: 0, b: 170, alpha_bits: ALPHA_ONE },
        row_line_color: RGBA { r: 128, g: 0, b: 128, alpha_bits: ALPHA_080 },
        column_line_color: RGBA { r: 128, g: 0, b: 128, alpha_bits: ALPHA_080 },
        row_gap_color: RGBA { r: 255, g: 165, b: 0, alpha_bits: ALPHA_030 },
        column_gap_color: RGBA { r: 255, g: 165, b: 0, alpha_bits: ALPHA_030 },
    }
}

impl Default for GridOverlayColors {
    /// Magenta border, purple lines, orange gaps.
    fn default() -> (c: Self)
        ensures
            c == default_grid_colors(),
    {
        GridOverlayColors {
            grid_border_color: RGBA { r: 255, g: 0, b: 170, alpha_bits: ALPHA_ONE },
            row_line_color: RGBA { r: 128, g: 0, b: 128, alpha_bits: ALPHA_080 },
            column_line_color: RGBA { r: 128, g: 0, b: 128, alpha_bits: ALPHA_080 },
            row_gap_color: RGBA { r: 255, g: 165, b: 0, alpha_bits: ALPHA_030 },
            column_gap_color: RGBA { r: 255, g: 165, b: 0, alpha_bits: ALPHA_030 },
        }
    }
}

/// A grid container, its tracks and items.
#[derive(Debug)]
pub struct GridContainerInfo {
    pub node_id: NodeId,
    pub grid_template_columns: String,
    pub grid_template_rows: String,
    pub grid_gap: String,
    pub column_gap: Option<String>,
    pub row_gap: Option<String>,
    pub grid_items: Vec<GridItemInfo>,
    pub overlay_colors: Option<GridOverlayColors>,
}

/// How a flex overlay is drawn.
#[derive(Debug, Clone, Copy, PartialEq, Eq, Structural)]
pub struct FlexOverlayConfig {
    pub show_items: bool,
    pub show_lines: bool,
    pub show_order: bool,
    pub container_color: Option<RGBA>,
    pub item_color: Option<RGBA>,
}

/// The default flex overlay.
pub open spec fn default_flex_config() -> FlexOverlayConfig {
    FlexOverlayConfig {
        show_items: true,
        show_lines: true,
        show_order: false,
        container_color: Some(RGBA { r: 147, g: 112, b: 219, alpha_bits: ALPHA_066 }),
        item_color: Some(RGBA { r: 175, g: 238, b: 238, alpha_bits: ALPHA_066 }),
    }
}

impl Default for FlexOverlayConfig {
    /// Items and lines shown, order hidden; purple container, turquoise
    /// items.
    fn default() -> (c: Self)
        ensures
            c == default_flex_config(),
    {
        FlexOverlayConfig {
            show_items: true,
            show_lines: true,
            show_order: false,
            container_color: Some(RGBA { r: 147, g: 112, b: 219, alpha_bits: ALPHA_066 }),
            item_color: Some(RGBA { r: 175, g: 238, b: 238, alpha_bits: ALPHA_066 }),
        }
    }
}

/// How a grid overlay is drawn.
#[derive(Debug, Clone, Copy, PartialEq, Eq, Structural)]
pub struct GridOverlayConfig {
    pub show_grid_lines: bool,
    pub show_line_names: bool,
    pub show_track_sizes: bool,
    pub show_area_names: bool,
    pub colors: Option<GridOverlayColors>,
}

/// The default grid overlay.
pub open spec fn default_grid_config() -> GridOverlayConfig {
    GridOverlayConfig {
        show_grid_lines: true,
        show_line_names: false,
        show_track_sizes: false,
        show_area_names: false,
        colors: Some(default_grid_colors()),
    }
}

impl Default for GridOverlayConfig {
    /// Grid lines only, in the default colors.
    fn default() -> (c: Self)
        ensures
            c == default_grid_config(),
    {
        GridOverlayConfig {
            show_grid_lines: true,
            show_line_names: false,
            show_track_sizes: false,
            show_area_names: false,
            colors: Some(GridOverlayColors::default()),
        }
    }
}

/// The overlays shown, by container, and whether layout debugging is on.
#[derive(Debug)]
pub struct LayoutOverlayState {
    pub flex_overlays: IdMap<FlexOverlayConfig>,
    pub grid_overlays: IdMap<GridOverlayConfig>,
    pub enabled: bool,
}

impl Default for LayoutOverlayState {
    /// No overlays, debugging off.
    fn default() -> (s: Self)
        ensures
            s.flex_overlays@ == Map::<NodeId, FlexOverlayConfig>::empty(),
            s.grid_overlays@ == Map::<NodeId, GridOverlayConfig>::empty(),
            s.flex_overlays.id_seq().len() == 0,
            s.grid_overlays.id_seq().len() == 0,
            !s.enabled,
    {
        LayoutOverlayState { flex_overlays: IdMap::new(), grid_overlays: IdMap::new(), enabled: false }
    }
}

/// The canned flex details of a container.
pub open spec fn canned_flex(info: FlexContainerInfo, id: NodeId) -> bool {
    let items = info.flex_items@;
    &&& info.node_id == id
    &&& info.flex_direction@ == "row"@
    &&& info.flex_wrap@ == "nowrap"@
    &&& info.align_items@ == "stretch"@
    &&& info.justify_content@ == "flex-start"@
    &&& items.len() == 2
    &&& items[0].node_id.0 == id.0 + 100
    &&& items[0].flex_grow_bits == ALPHA_ONE
    &&& items[0].flex_shrink_bits == ALPHA_ONE
    &&& items[0].flex_basis@ == "auto"@
    &&& items[0].align_self is None
    &&& items[0].order == 0
    &&& items[1].node_id.0 == id.0 + 101
    &&& items[1].flex_grow_bits == 0
    &&& items[1].flex_shrink_bits == ALPHA_ONE
    &&& items[1].flex_basis@ == "200px"@
    &&& (items[1].align_self matches Some(a) && a@ == "center"@)
    &&& items[1].order == 1
}

/// The canned grid details of a container.
pub open spec fn canned_grid(info: GridContainerInfo, id: NodeId) -> bool {
    let items = info.grid_items@;
    &&& info.node_id == id
    &&& info.grid_template_columns@ == "1fr 2fr 1fr"@
    &&& info.grid_template_rows@ == "auto 1fr auto"@
    &&& info.grid_gap@ == "10px"@
    &&& (info.column_gap matches Some(g) && g@ == "10px"@)
    &&& (info.row_gap matches Some(g) && g@ == "10px"@)
    &&& info.overlay_colors == Some(default_grid_colors())
    &&& items.len() == 2
    &&& items[0].node_id.0 == id.0 + 100
    &&& items[0].grid_column_start == 1 && items[0].grid_column_end == 2
    &&& items[0].grid_row_start == 1 && items[0].grid_row_end == 2
    &&& (items[0].grid_area matches Some(a) && a@ == "header"@)
    &&& items[1].node_id.0 == id.0 + 101
    &&& items[1].grid_column_start == 1 && items[1].grid_column_end == 4
    &&& items[1].grid_row_start == 2 && items[1].grid_row_end == 3
    &&& (items[1].grid_area matches Some(a) && a@ == "main"@)
}

/// Hiding an overlay undoes showing it: a container that had no overlay
/// before has none after, and the other containers keep theirs.
pub proof fn hidden_overlay_is_gone<V>(overlays: Map<NodeId, V>, id: NodeId, config: V)
    ensures
        !overlays.insert(id, config).remove(id).contains_key(id),
        !overlays.contains_key(id) ==> overlays.insert(id, config).remove(id) == overlays,
        overlays.insert(id, config).remove(id) == overlays.remove(id),
{
    assert(overlays.insert(id, config).remove(id) =~= overlays.remove(id));
    if !overlays.contains_key(id) {
        assert(overlays.remove(id) =~= overlays);
    }
}

/// The layout panel.
#[derive(Debug)]
pub struct LayoutInspector {
    browser: MockBrowser,
    overlay_state: LayoutOverlayState,
}

impl LayoutInspector {
    pub closed spec fn page(&self) -> MockBrowser {
        self.browser
    }

    /// The flex overlays shown.
    pub closed spec fn flex(&self) -> Map<NodeId, FlexOverlayConfig> {
        self.overlay_state.flex_overlays@
    }

    /// The grid overlays shown.
    pub closed spec fn grid(&self) -> Map<NodeId, GridOverlayConfig> {
        self.overlay_state.grid_overlays@
    }

    /// The containers with a flex overlay, in the order they were shown.
    pub closed spec fn flex_order(&self) -> Seq<NodeId> {
        self.overlay_state.flex_overlays.id_seq()
    }

    /// The containers with a grid overlay, in the order they were shown.
    pub closed spec fn grid_order(&self) -> Seq<NodeId> {
        self.overlay_state.grid_overlays.id_seq()
    }

    /// Whether layout debugging is on.
    pub closed spec fn is_enabled(&self) -> bool {
        self.overlay_state.enabled
    }

    /// The panel's invariant: the page is well formed.
    pub closed spec fn wf(&self) -> bool {
        self.browser.wf()
    }

    /// A panel over the test page, with no overlays.
    pub fn new() -> (p: Self)
        ensures
            p.wf(),
            fresh_page(p.page()),
            p.flex() == Map::<NodeId, FlexOverlayConfig>::empty(),
            p.grid() == Map::<NodeId, GridOverlayConfig>::empty(),
            p.flex_order().len() == 0,
            p.grid_order().len() == 0,
            !p.is_enabled(),
    {
        LayoutInspector { browser: MockBrowser::new(), overlay_state: LayoutOverlayState::default() }
    }

    /// A panel over a given page, with no overlays.
    pub fn with_browser(browser: MockBrowser) -> (p: Self)
        requires
            browser.wf(),
        ensures
            p.wf(),
            p.page() == browser,
            p.flex() == Map::<NodeId, FlexOverlayConfig>::empty(),
            p.grid() == Map::<NodeId, GridOverlayConfig>::empty(),
            p.flex_order().len() == 0,
            p.grid_order().len() == 0,
            !p.is_enabled(),
    {
        LayoutInspector { browser, overlay_state: LayoutOverlayState::default() }
    }

    /// The domain's name.
    pub fn name(&self) -> (n: &'static str)
        ensures
            n@ == "LayoutInspector"@,
    {
        "LayoutInspector"
    }

    /// The page.
    pub fn browser(&self) -> (b: &MockBrowser)
        ensures
            *b == self.page(),
    {
        &self.browser
    }

    /// The overlay state.
    pub fn get_overlay_state(&self) -> (s: &LayoutOverlayState)
        ensures
            s.flex_overlays@ == self.flex(),
            s.grid_overlays@ == self.grid(),
            s.flex_overlays.id_seq() == self.flex_order(),
            s.grid_overlays.id_seq() == self.grid_order(),
            s.enabled == self.is_enabled(),
    {
        &self.overlay_state
    }

    /// The flex details of an existing container (canned: a row of two
    /// items with ids 100 and 101 above the container's).
    pub fn get_flex_container_info(&self, node_id: NodeId) -> (r: Result<FlexContainerInfo, ProtocolError>)
        requires
            self.wf(),
        ensures
            !exists_on(self.page(), node_id) ==> (r matches Err(e) && node_not_found(e, node_id.0)),
            exists_on(self.page(), node_id) ==> (r matches Ok(info) && canned_flex(info, node_id)),
    {
        if !self.browser.node_exists(node_id) {
            return Err(not_found(node_id.0));
        }
        proof {
            self.browser.lemma_size();
        }
        let mut items: Vec<FlexItemInfo> = Vec::new();
        items.push(
            FlexItemInfo {
                node_id: NodeId(node_id.0 + 100),
                flex_grow_bits: ALPHA_ONE,
                flex_shrink_bits: ALPHA_ONE,
                flex_basis: owned("auto"),
                align_self: None,
                order: 0,
            },
        );
        items.push(
            FlexItemInfo {
                node_id: NodeId(node_id.0 + 101),
                flex_grow_bits: 0,
                flex_shrink_bits: ALPHA_ONE,
                flex_basis: owned("200px"),
                align_self: Some(owned("center")),
                order: 1,
            },
        );
        Ok(
            FlexContainerInfo {
                node_id,
                flex_direction: owned("row"),
                flex_wrap: owned("nowrap"),
                align_items: owned("stretch"),
                justify_content: owned("flex-start"),
                flex_items: items,
            },
        )
    }

    /// The grid details of an existing container (canned: three columns,
    /// a header and a main item with ids 100 and 101 above the container's).
    pub fn get_grid_container_info(&self, node_id: NodeId) -> (r: Result<GridContainerInfo, ProtocolError>)
        requires
            self.wf(),
        ensures
            !exists_on(self.page(), node_id) ==> (r matches Err(e) && node_not_found(e, node_id.0)),
            exists_on(self.page(), node_id) ==> (r matches Ok(info) && canned_grid(info, node_id)),
    {
        if !self.browser.node_exists(node_id) {
            return Err(not_found(node_id.0));
        }
        proof {
            self.browser.lemma_size();
        }
        let mut items: Vec<GridItemInfo> = Vec::new();
        items.push(
            GridItemInfo {
                node_id: NodeId(node_id.0 + 100),
                grid_column_start: 1,
                grid_column_end: 2,
                grid_row_start: 1,
                grid_row_end: 2,
                grid_area: Some(owned("header")),
            },
        );
        items.push(
            GridItemInfo {
                node_id: NodeId(node_id.0 + 101),
                grid_column_start: 1,
                grid_column_end: 4,
                grid_row_start: 2,
                grid_row_end: 3,
                grid_area: Some(owned("main")),
            },
        );
        Ok(
            GridContainerInfo {
                node_id,
                grid_template_columns: owned("1fr 2fr 1fr"),
                grid_template_rows: owned("auto 1fr auto"),
                grid_gap: owned("10px"),
                column_gap: Some(owned("10px")),
                row_gap: Some(owned("10px")),
                grid_items: items,
                overlay_colors: Some(GridOverlayColors::default()),
            },
        )
    }

    /// The box model of an existing node.
    pub fn get_box_model(&self, node_id: NodeId) -> (r: Result<BoxModel, ProtocolError>)
        requires
            self.wf(),
        ensures
            !exists_on(self.page(), node_id) ==> (r matches Err(e) && node_not_found(e, node_id.0)),
            exists_on(self.page(), node_id) ==> (r matches Ok(b) && canned_box(b, node_id.0 * 10)),
    {
        match self.browser.get_box_model(node_id) {
            Some(b) => Ok(b),
            None => Err(not_found(node_id.0)),
        }
    }

    /// The box model of a node, if it exists.
    pub fn get_element_box_model(&self, node_id: NodeId) -> (r: Option<BoxModel>)
        requires
            self.wf(),
        ensures
            !exists_on(self.page(), node_id) ==> r is None,
            exists_on(self.page(), node_id) ==> (r matches Some(b) && canned_box(b, node_id.0 * 10)),
    {
        self.browser.get_box_model(node_id)
    }

    /// Shows a flex overlay on an existing container, with the given
    /// configuration or the default, and gives back the configuration.
    pub fn show_flex_overlay(&mut self, node_id: NodeId, config: Option<FlexOverlayConfig>) -> (r: Result<FlexOverlayConfig, ProtocolError>)
        requires
            old(self).wf(),
        ensures
            final(self).wf(),
            final(self).page() == old(self).page(),
            final(self).grid() == old(self).grid(),
            final(self).grid_order() == old(self).grid_order(),
            final(self).is_enabled() == old(self).is_enabled(),
            !exists_on(old(self).page(), node_id) ==> (r matches Err(e) && node_not_found(e, node_id.0)
                && final(self).flex() == old(self).flex() && final(self).flex_order() == old(self).flex_order()),
            exists_on(old(self).page(), node_id) ==> (r matches Ok(c) && c == (match config {
                Some(c) => c,
                None => default_flex_config(),
            }) && final(self).flex() == old(self).flex().insert(node_id, c)),
            exists_on(old(self).page(), node_id) && old(self).flex().contains_key(node_id) ==> final(self).flex_order() == old(self).flex_order(),
            exists_on(old(self).page(), node_id) && !old(self).flex().contains_key(node_id) ==> final(self).flex_order() == old(self).flex_order().push(node_id),
    {
        if !self.browser.node_exists(node_id) {
            return Err(not_found(node_id.0));
        }
        let c = match config {
            Some(c) => c,
            None => FlexOverlayConfig::default(),
        };
        self.overlay_state.flex_overlays.insert(node_id, c);
        Ok(c)
    }

    /// Hides the flex overlay of a container, if it has one.
    pub fn hide_flex_overlay(&mut self, node_id: NodeId)
        requires
            old(self).wf(),
        ensures
            final(self).wf(),
            final(self).page() == old(self).page(),
            final(self).flex() == old(self).flex().remove(node_id),
            final(self).flex_order() == without_id(old(self).flex_order(), node_id),
            final(self).grid() == old(self).grid(),
            final(self).grid_order() == old(self).grid_order(),
            final(self).is_enabled() == old(self).is_enabled(),
    {
        self.overlay_state.flex_overlays.remove(node_id);
    }

    /// Shows a grid overlay on an existing container, with the given
    /// configuration or the default, and gives back the configuration.
    pub fn show_grid_overlay(&mut self, node_id: NodeId, config: Option<GridOverlayConfig>) -> (r: Result<GridOverlayConfig, ProtocolError>)
        requires
            old(self).wf(),
        ensures
            final(self).wf(),
            final(self).page() == old(self).page(),
            final(self).flex() == old(self).flex(),
            final(self).flex_order() == old(self).flex_order(),
            final(self).is_enabled() == old(self).is_enabled(),
            !exists_on(old(self).page(), node_id) ==> (r matches Err(e) && node_not_found(e, node_id.0)
                && final(self).grid() == old(self).grid() && final(self).grid_order() == old(self).grid_order()),
            exists_on(old(self).page(), node_id) ==> (r matches Ok(c) && c == (match config {
                Some(c) => c,
                None => default_grid_config(),
            }) && final(self).grid() == old(self).grid().insert(node_id, c)),
            exists_on(old(self).page(), node_id) && old(self).grid().contains_key(node_id) ==> final(self).grid_order() == old(self).grid_order(),
            exists_on(old(self).page(), node_id) && !old(self).grid().contains_key(node_id) ==> final(self).grid_order() == old(self).grid_order().push(node_id),
    {
        if !self.browser.node_exists(node_id) {
            return Err(not_found(node_id.0));
        }
        let c = match config {
            Some(c) => c,
            None => GridOverlayConfig::default(),
        };
        self.overlay_state.grid_overlays.insert(node_id, c);
        Ok(c)
    }

    /// Hides the grid overlay of a container, if it has one.
    pub fn hide_grid_overlay(&mut self, node_id: NodeId)
        requires
            old(self).wf(),
        ensures
            final(self).wf(),
            final(self).page() == old(self).page(),
            final(self).grid() == old(self).grid().remove(node_id),
            final(self).grid_order() == without_id(old(self).grid_order(), node_id),
            final(self).flex() == old(self).flex(),
            final(self).flex_order() == old(self).flex_order(),
            final(self).is_enabled() == old(self).is_enabled(),
    {
        self.overlay_state.grid_overlays.remove(node_id);
    }

    /// The containers with flex overlays and those with grid overlays, each
    /// container once.
    pub fn get_active_overlays(&self) -> (r: (Vec<NodeId>, Vec<NodeId>))
        requires
            self.wf(),
        ensures
            r.0@ == self.flex_order(),
            r.1@ == self.grid_order(),
            r.0@.no_duplicates(),
            r.1@.no_duplicates(),
            forall|k: NodeId| #[trigger] r.0@.contains(k) <==> self.flex().contains_key(k),
            forall|k: NodeId| #[trigger] r.1@.contains(k) <==> self.grid().contains_key(k),
    {
        (self.overlay_state.flex_overlays.keys(), self.overlay_state.grid_overlays.keys())
    }

    /// Hides every overlay.
    pub fn clear_all_overlays(&mut self)
        requires
            old(self).wf(),
        ensures
            final(self).wf(),
            final(self).page() == old(self).page(),
            final(self).flex() == Map::<NodeId, FlexOverlayConfig>::empty(),
            final(self).grid() == Map::<NodeId, GridOverlayConfig>::empty(),
            final(self).flex_order().len() == 0,
            final(self).grid_order().len() == 0,
            final(self).is_enabled() == old(self).is_enabled(),
    {
        self.overlay_state.flex_overlays.clear();
        self.overlay_state.grid_overlays.clear();
    }

    /// Turns layout debugging on.
    pub fn enable(&mut self)
        requires
            old(self).wf(),
        ensures
            final(self).wf(),
            final(self).page() == old(self).page(),
            final(self).is_enabled(),
            final(self).flex() == old(self).flex(),
            final(self).grid() == old(self).grid(),
            final(self).flex_order() == old(self).flex_order(),
            final(self).grid_order() == old(self).grid_order(),
    {
        self.overlay_state.enabled = true;
    }

    /// Turns layout debugging off and hides every overlay.
    pub fn disable(&mut self)
        requires
            old(self).wf(),
        ensures
            final(self).wf(),
            final(self).page() == old(self).page(),
            !final(self).is_enabled(),
            final(self).flex() == Map::<NodeId, FlexOverlayConfig>::empty(),
            final(self).grid() == Map::<NodeId, GridOverlayConfig>::empty(),
            final(self).flex_order().len() == 0,
            final(self).grid_order().len() == 0,
    {
        self.overlay_state.enabled = false;
        self.overlay_state.flex_overlays.clear();
        self.overlay_state.grid_overlays.clear();
    }
}

} // verus!
