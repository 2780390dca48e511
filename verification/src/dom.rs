//! DOM nodes, attribute lists and the simplified selectors (`#id`,
//! `.class`, tag name) that the inspectors match against them.

use vstd::prelude::*;
use crate::text::{chars_of, is_white_space, str_eq, trim_chars, trimmed, white_space};

verus! {

/// The id of a DOM node.
#[derive(Debug, Clone, Copy, PartialEq, Eq, Structural, Hash)]
pub struct NodeId(pub u32);

/// The kind of a DOM node.
#[derive(Debug, Clone, Copy, PartialEq, Eq, Structural)]
pub enum NodeType {
    Element,
    Attribute,
    Text,
    CDataSection,
    ProcessingInstruction,
    Comment,
    Document,
    DocumentType,
    DocumentFragment,
}

/// The standard DOM number of a node kind (`Node.nodeType`).
pub open spec fn node_type_number(t: NodeType) -> u32 {
    match t {
        NodeType::Element => 1,
        NodeType::Attribute => 2,
        NodeType::Text => 3,
        NodeType::CDataSection => 4,
        NodeType::ProcessingInstruction => 7,
        NodeType::Comment => 8,
        NodeType::Document => 9,
        NodeType::DocumentType => 10,
        NodeType::DocumentFragment => 11,
    }
}

impl NodeType {
    /// The standard DOM number of this kind.
    pub fn code(&self) -> (c: u32)
        ensures
            c == node_type_number(*self),
    {
        match self {
            NodeType::Element => 1,
            NodeType::Attribute => 2,
            NodeType::Text => 3,
            NodeType::CDataSection => 4,
            NodeType::ProcessingInstruction => 7,
            NodeType::Comment => 8,
            NodeType::Document => 9,
            NodeType::DocumentType => 10,
            NodeType::DocumentFragment => 11,
        }
    }
}

/// A DOM node; `attributes` alternates names and values.
#[derive(Debug)]
pub struct Node {
    pub node_id: NodeId,
    pub node_type: NodeType,
    pub node_name: String,
    pub local_name: Option<String>,
    pub node_value: Option<String>,
    pub child_node_count: Option<u32>,
    pub children: Option<Vec<Node>>,
    pub attributes: Option<Vec<String>>,
}

/// What a node holds apart from its children.
pub struct NodeInfo {
    pub id: u32,
    pub kind: NodeType,
    pub name: Seq<char>,
    pub local_name: Option<Seq<char>>,
    pub value: Option<Seq<char>>,
    pub child_count: Option<u32>,
    pub attributes: Option<Seq<Seq<char>>>,
}

/// The views of a list of strings.
pub open spec fn string_views(v: Seq<String>) -> Seq<Seq<char>> {
    v.map_values(|s: String| s@)
}

/// A node's information.
pub open spec fn info(n: Node) -> NodeInfo {
    NodeInfo {
        id: n.node_id.0,
        kind: n.node_type,
        name: n.node_name@,
        local_name: match n.local_name {
            Some(l) => Some(l@),
            None => None,
        },
        value: match n.node_value {
            Some(v) => Some(v@),
            None => None,
        },
        child_count: n.child_node_count,
        attributes: match n.attributes {
            Some(a) => Some(string_views(a@)),
            None => None,
        },
    }
}

/// A copy of a list of strings.
pub fn copy_strings(v: &Vec<String>) -> (r: Vec<String>)
    ensures
        string_views(r@) == string_views(v@),
{
    let mut r: Vec<String> = Vec::new();
    let mut i: usize = 0;
    while i < v.len()
        invariant
            i <= v@.len(),
            r@.len() == i,
            forall|k: int| 0 <= k < i ==> (#[trigger] r@[k])@ == v@[k]@,
        decreases v@.len() - i,
    {
        r.push(v[i].clone());
        i = i + 1;
    }
    proof {
        assert(string_views(r@) =~= string_views(v@));
    }
    r
}

fn copy_opt(s: &Option<String>) -> (r: Option<String>)
    ensures
        match *s {
            Some(x) => r matches Some(y) && y@ == x@,
            None => r is None,
        },
{
    match s {
        Some(x) => Some(x.clone()),
        None => None,
    }
}

/// A copy of a node without its children.
pub fn copy_node(n: &Node) -> (r: Node)
    ensures
        info(r) == info(*n),
        r.children is None,
{
    Node {
        node_id: n.node_id,
        node_type: n.node_type,
        node_name: n.node_name.clone(),
        local_name: copy_opt(&n.local_name),
        node_value: copy_opt(&n.node_value),
        child_node_count: n.child_node_count,
        children: None,
        attributes: match &n.attributes {
            Some(a) => Some(copy_strings(a)),
            None => None,
        },
    }
}

// ---------------------------------------------------------------------------
// Attribute lists
// ---------------------------------------------------------------------------

/// The first even position at or after `i` holding the name.
pub open spec fn first_pair_from(attrs: Seq<Seq<char>>, name: Seq<char>, i: int) -> Option<int>
    decreases attrs.len() + 2 - i,
{
    if i < 0 || i >= attrs.len() {
        None
    } else if attrs[i] == name {
        Some(i)
    } else {
        first_pair_from(attrs, name, i + 2)
    }
}

/// The first even position holding the name.
pub open spec fn first_pair(attrs: Seq<Seq<char>>, name: Seq<char>) -> Option<int> {
    first_pair_from(attrs, name, 0)
}

/// The value of an attribute: the one after its first occurrence as a name.
pub open spec fn attribute_value(attrs: Seq<Seq<char>>, name: Seq<char>) -> Option<Seq<char>> {
    match first_pair(attrs, name) {
        Some(i) => if i + 1 < attrs.len() {
            Some(attrs[i + 1])
        } else {
            None
        },
        None => None,
    }
}

/// Whether some name/value pair is (key, value).
pub open spec fn has_pair(attrs: Seq<Seq<char>>, key: Seq<char>, value: Seq<char>) -> bool {
    exists|i: int| 0 <= i && i + 1 < attrs.len() && i % 2 == 0 && #[trigger] attrs[i] == key && attrs[i + 1] == value
}

/// Whether `w` is one of the whitespace-separated words of `s`.
pub open spec fn is_word_of(w: Seq<char>, s: Seq<char>) -> bool {
    &&& w.len() > 0
    &&& forall|k: int| 0 <= k < w.len() ==> !is_white_space(#[trigger] w[k])
    &&& exists|p: int| 0 <= p && p + w.len() <= s.len() && #[trigger] s.subrange(p, p + w.len()) == w
        && (p == 0 || is_white_space(s[p - 1])) && (p + w.len() == s.len() || is_white_space(s[p + w.len()]))
}

/// Whether some class attribute of the list holds the word.
pub open spec fn has_class(attrs: Seq<Seq<char>>, class_name: Seq<char>) -> bool {
    exists|i: int| 0 <= i && i + 1 < attrs.len() && i % 2 == 0 && #[trigger] attrs[i] == "class"@
        && is_word_of(class_name, attrs[i + 1])
}

pub(crate) proof fn lemma_first_pair_from(attrs: Seq<Seq<char>>, name: Seq<char>, i: int)
    requires
        0 <= i,
        i % 2 == 0,
    ensures
        first_pair_from(attrs, name, i) matches Some(k) ==> i <= k < attrs.len() && k % 2 == 0
            && attrs[k] == name && forall|j: int| i <= j < k && j % 2 == 0 ==> attrs[j] != name,
        first_pair_from(attrs, name, i) is None ==> forall|j: int|
            i <= j < attrs.len() && j % 2 == 0 ==> attrs[j] != name,
    decreases attrs.len() + 2 - i,
{
    if i < attrs.len() && attrs[i] != name {
        lemma_first_pair_from(attrs, name, i + 2);
    }
}

/// In a list of name/value pairs, the first occurrence of a name is a name
/// with a value after it.
pub proof fn lemma_pair_in_even_list(attrs: Seq<Seq<char>>, name: Seq<char>)
    requires
        attrs.len() % 2 == 0,
    ensures
        first_pair(attrs, name) matches Some(i) ==> 0 <= i && i + 1 < attrs.len() && i % 2 == 0
            && attrs[i] == name,
{
    lemma_first_pair_from(attrs, name, 0);
}

/// The position of the first pair named `name`.
pub fn find_pair(attrs: &Vec<String>, name: &str) -> (r: Option<usize>)
    ensures
        match first_pair(string_views(attrs@), name@) {
            Some(i) => r matches Some(j) && j as int == i,
            None => r is None,
        },
        r matches Some(j) ==> j < attrs@.len(),
{
    let ghost a = string_views(attrs@);
    let mut i: usize = 0;
    proof {
        lemma_first_pair_from(a, name@, 0);
    }
    while i < attrs.len()
        invariant
            a == string_views(attrs@),
            i % 2 == 0,
            i <= attrs@.len() + 1,
            first_pair(a, name@) == first_pair_from(a, name@, i as int),
        decreases attrs@.len() + 2 - i,
    {
        assert(a[i as int] == attrs@[i as int]@);
        if str_eq(attrs[i].as_str(), name) {
            return Some(i);
        }
        if attrs.len() - i < 2 {
            proof {
                assert(first_pair_from(a, name@, i + 2) is None);
            }
            return None;
        }
        i = i + 2;
    }
    None
}

/// The value of an attribute.
pub fn get_attribute_value(attrs: &Option<Vec<String>>, name: &str) -> (r: Option<String>)
    ensures
        match *attrs {
            Some(a) => match attribute_value(string_views(a@), name@) {
                Some(v) => r matches Some(s) && s@ == v,
                None => r is None,
            },
            None => r is None,
        },
{
    match attrs {
        Some(a) => match find_pair(a, name) {
            Some(i) => {
                if a.len() - i > 1 {
                    assert(string_views(a@)[i + 1] == a@[i + 1]@);
                    Some(a[i + 1].clone())
                } else {
                    None
                }
            },
            None => None,
        },
        None => None,
    }
}

/// Whether some pair of the list is (key, value).
fn contains_pair(attrs: &Vec<String>, key: &str, value: &str) -> (r: bool)
    ensures
        r == has_pair(string_views(attrs@), key@, value@),
{
    let ghost a = string_views(attrs@);
    let mut i: usize = 0;
    while i + 1 < attrs.len()
        invariant
            a == string_views(attrs@),
            i % 2 == 0,
            i <= attrs@.len() + 1,
            forall|j: int| 0 <= j < i && j + 1 < a.len() && j % 2 == 0 ==> !(#[trigger] a[j] == key@ && a[j + 1] == value@),
        decreases attrs@.len() + 2 - i,
    {
        assert(a[i as int] == attrs@[i as int]@ && a[i + 1] == attrs@[i + 1]@);
        if str_eq(attrs[i].as_str(), key) && str_eq(attrs[i + 1].as_str(), value) {
            return true;
        }
        i = i + 2;
    }
    proof {
        assert forall|j: int| 0 <= j && j + 1 < a.len() && j % 2 == 0 && #[trigger] a[j] == key@ implies a[j + 1] != value@ by {
            assert(j < i);
        }
    }
    false
}

/// Whether a word occurs among the whitespace-separated words of `s`.
fn has_word(s: &str, w: &[char]) -> (r: bool)
    ensures
        r == is_word_of(w@, s@),
{
    let sc = chars_of(s);
    let n = sc.len();
    let m = w.len();
    if m == 0 {
        return false;
    }
    let mut k: usize = 0;
    while k < m
        invariant
            k <= m,
            m == w@.len(),
            forall|j: int| 0 <= j < k ==> !is_white_space(#[trigger] w@[j]),
        decreases m - k,
    {
        if white_space(w[k]) {
            return false;
        }
        k = k + 1;
    }
    if m > n {
        proof {
            assert forall|p: int| 0 <= p && p + m <= n implies #[trigger] s@.subrange(p, p + m) != w@ by {}
        }
        return false;
    }
    let mut p: usize = 0;
    while p <= n - m
        invariant
            sc@ == s@,
            n == s@.len(),
            m == w@.len(),
            0 < m <= n,
            forall|j: int| 0 <= j < m ==> !is_white_space(#[trigger] w@[j]),
            forall|q: int| 0 <= q < p && q + m <= n ==> !(#[trigger] s@.subrange(q, q + m) == w@
                && (q == 0 || is_white_space(s@[q - 1])) && (q + m == n || is_white_space(s@[q + m]))),
        decreases n + 1 - p,
    {
        let left = p == 0 || white_space(sc[p - 1]);
        let right = p + m == n || white_space(sc[p + m]);
        if left && right {
            let mut j: usize = 0;
            let mut same = true;
            while j < m
                invariant
                    j <= m,
                    p + m <= n,
                    sc@ == s@,
                    m == w@.len(),
                    n == sc@.len(),
                    same == (forall|t: int| 0 <= t < j ==> sc@[p + t] == w@[t]),
                decreases m - j,
            {
                if sc[p + j] != w[j] {
                    same = false;
                }
                j = j + 1;
            }
            if same {
                proof {
                    assert(s@.subrange(p as int, p + m) =~= w@);
                }
                return true;
            }
            proof {
                assert(s@.subrange(p as int, p + m) != w@) by {
                    if s@.subrange(p as int, p + m) == w@ {
                        assert forall|t: int| 0 <= t < m implies sc@[p + t] == w@[t] by {
                            assert(s@.subrange(p as int, p + m)[t] == s@[p + t]);
                        }
                    }
                }
            }
        }
        p = p + 1;
    }
    false
}

/// Whether some class attribute of the list holds the word.
fn contains_class(attrs: &Vec<String>, class_name: &[char]) -> (r: bool)
    ensures
        r == has_class(string_views(attrs@), class_name@),
{
    let ghost a = string_views(attrs@);
    let mut i: usize = 0;
    while i + 1 < attrs.len()
        invariant
            a == string_views(attrs@),
            i % 2 == 0,
            i <= attrs@.len() + 1,
            forall|j: int| 0 <= j < i && j + 1 < a.len() && j % 2 == 0 ==> !(#[trigger] a[j] == "class"@
                && is_word_of(class_name@, a[j + 1])),
        decreases attrs@.len() + 2 - i,
    {
        assert(a[i as int] == attrs@[i as int]@ && a[i + 1] == attrs@[i + 1]@);
        if str_eq(attrs[i].as_str(), "class") && has_word(attrs[i + 1].as_str(), class_name) {
            return true;
        }
        i = i + 2;
    }
    proof {
        assert forall|j: int| 0 <= j && j + 1 < a.len() && j % 2 == 0 && #[trigger] a[j] == "class"@ implies !is_word_of(
            class_name@,
            a[j + 1],
        ) by {
            assert(j < i);
        }
    }
    false
}

// ---------------------------------------------------------------------------
// Selectors
// ---------------------------------------------------------------------------

/// The code of a character in ASCII lowercase.
pub open spec fn ascii_lower(c: char) -> u32 {
    if 'A' <= c <= 'Z' {
        ((c as u32) + 32) as u32
    } else {
        c as u32
    }
}

/// Whether two strings are equal ignoring ASCII case.
pub open spec fn eq_ignore_ascii_case(a: Seq<char>, b: Seq<char>) -> bool {
    a.len() == b.len() && forall|i: int| 0 <= i < a.len() ==> ascii_lower(#[trigger] a[i]) == ascii_lower(b[i])
}

fn lower_char(c: char) -> (r: u32)
    ensures
        r == ascii_lower(c),
{
    if 'A' <= c && c <= 'Z' {
        (c as u32) + 32
    } else {
        c as u32
    }
}

/// Equality ignoring ASCII case.
pub fn same_ignoring_ascii_case(a: &[char], b: &[char]) -> (r: bool)
    ensures
        r == eq_ignore_ascii_case(a@, b@),
{
    if a.len() != b.len() {
        return false;
    }
    let mut i: usize = 0;
    while i < a.len()
        invariant
            i <= a@.len(),
            a@.len() == b@.len(),
            forall|j: int| 0 <= j < i ==> ascii_lower(#[trigger] a@[j]) == ascii_lower(b@[j]),
        decreases a@.len() - i,
    {
        if lower_char(a[i]) != lower_char(b[i]) {
            return false;
        }
        i = i + 1;
    }
    true
}

/// Whether an element matches a simplified selector: `#id` (an `id`
/// attribute), `.class` (a word of a `class` attribute) or a tag name in
/// any ASCII case (local or node name). The selector is trimmed first;
/// only elements match.
pub open spec fn matches_selector(n: NodeInfo, selector: Seq<char>) -> bool {
    let sel = trimmed(selector);
    let attrs = match n.attributes {
        Some(a) => a,
        None => Seq::empty(),
    };
    if n.kind != NodeType::Element {
        false
    } else if sel.len() > 0 && sel[0] == '#' {
        n.attributes is Some && has_pair(attrs, "id"@, sel.drop_first())
    } else if sel.len() > 0 && sel[0] == '.' {
        n.attributes is Some && has_class(attrs, sel.drop_first())
    } else {
        let local = match n.local_name {
            Some(l) => l,
            None => Seq::empty(),
        };
        eq_ignore_ascii_case(local, sel) || eq_ignore_ascii_case(n.name, sel)
    }
}

/// Whether a node matches a simplified selector.
pub fn node_matches_selector(node: &Node, selector: &str) -> (r: bool)
    ensures
        r == matches_selector(info(*node), selector@),
{
    if node.node_type != NodeType::Element {
        return false;
    }
    let raw = chars_of(selector);
    let sel = trim_chars(raw.as_slice());
    if sel.len() > 0 && sel[0] == '#' {
        let rest = sel_tail(&sel);
        return match &node.attributes {
            Some(a) => {
                let id_name = crate::text::string_from_chars(rest.as_slice());
                contains_pair(a, "id", id_name.as_str())
            },
            None => false,
        };
    }
    if sel.len() > 0 && sel[0] == '.' {
        let rest = sel_tail(&sel);
        return match &node.attributes {
            Some(a) => contains_class(a, rest.as_slice()),
            None => false,
        };
    }
    let local: Vec<char> = match &node.local_name {
        Some(l) => chars_of(l.as_str()),
        None => Vec::new(),
    };
    let name = chars_of(node.node_name.as_str());
    same_ignoring_ascii_case(local.as_slice(), sel.as_slice()) || same_ignoring_ascii_case(
        name.as_slice(),
        sel.as_slice(),
    )
}

/// All but the first character.
fn sel_tail(v: &Vec<char>) -> (r: Vec<char>)
    requires
        v@.len() > 0,
    ensures
        r@ == v@.drop_first(),
{
    let mut r: Vec<char> = Vec::new();
    let mut i: usize = 1;
    while i < v.len()
        invariant
            1 <= i <= v@.len(),
            r@ == v@.subrange(1, i as int),
        decreases v@.len() - i,
    {
        r.push(v[i]);
        i = i + 1;
        proof {
            assert(r@ =~= v@.subrange(1, i as int));
        }
    }
    proof {
        assert(v@.subrange(1, i as int) =~= v@.drop_first());
    }
    r
}

} // verus!
