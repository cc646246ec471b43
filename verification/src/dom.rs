//! The library's own view of parsed markup: one tree of text and
//! element nodes with ordered children, attribute lookup and
//! CSS-class membership tests. A page is parsed once, by kuchikiki,
//! behind trusted wrappers; everything that reads the tree afterwards
//! is verified code over these plain types. Text nodes hold decoded
//! character data, as the HTML parser delivers it.

use vstd::prelude::*;
use vstd::string::*;
use kuchikiki::traits::TendrilSink;
use crate::chars::{is_ascii_space, str_eq, exec_is_ascii_space};

verus! {

/// One attribute of an element, name and value.
pub struct Attr {
    pub key: String,
    pub value: String,
}

/// One node of the parsed tree, in document order among its siblings.
pub enum Node {
    /// Decoded character data.
    Text(String),
    Element(Elem),
}

/// An element with its local name, attributes and child nodes.
pub struct Elem {
    pub name: String,
    pub attrs: Vec<Attr>,
    pub children: Vec<Node>,
}

/// Value of the first attribute named `key`, as attribute lookup on a
/// parsed element behaves.
pub open spec fn attr_of(attrs: Seq<Attr>, key: Seq<char>) -> Option<Seq<char>>
    decreases attrs.len(),
{
    if attrs.len() == 0 {
        None
    } else if attrs[0].key@ == key {
        Some(attrs[0].value@)
    } else {
        attr_of(attrs.drop_first(), key)
    }
}

/// `cls` stands as a whitespace-delimited token in the class text `s`
/// (meaningful for a non-empty `cls` without whitespace, as CSS class
/// names are).
pub open spec fn has_class_token(s: Seq<char>, cls: Seq<char>) -> bool {
    exists|i: int|
        #![trigger s.subrange(i, i + cls.len())]
        0 <= i && i + cls.len() <= s.len() && s.subrange(i, i + cls.len()) == cls && (i == 0
            || is_ascii_space(s[i - 1])) && (i + cls.len() == s.len() || is_ascii_space(
            s[i + cls.len()],
        ))
}

/// Concatenated character data of the direct text children, in order.
pub open spec fn direct_text(children: Seq<Node>) -> Seq<char>
    decreases children.len(),
{
    if children.len() == 0 {
        Seq::empty()
    } else {
        direct_text(children.drop_last()) + (match children.last() {
            Node::Text(t) => t@,
            Node::Element(_) => Seq::empty(),
        })
    }
}

impl Elem {
    /// Value of this element's first attribute named `key`.
    pub fn attr(&self, key: &str) -> (r: Option<&String>)
        ensures
            match r {
                Some(v) => attr_of(self.attrs@, key@) == Some(v@),
                None => attr_of(self.attrs@, key@) is None,
            },
    {
        let n = self.attrs.len();
        let mut i: usize = 0;
        assert(self.attrs@.skip(0) =~= self.attrs@);
        while i < n
            invariant
                0 <= i <= n,
                n == self.attrs@.len(),
                attr_of(self.attrs@, key@) == attr_of(self.attrs@.skip(i as int), key@),
            decreases n - i,
        {
            assert(self.attrs@.skip(i as int)[0] == self.attrs@[i as int]);
            assert(self.attrs@.skip(i as int).drop_first() =~= self.attrs@.skip(i as int + 1));
            if str_eq(self.attrs[i].key.as_str(), key) {
                return Some(&self.attrs[i].value);
            }
            i = i + 1;
        }
        assert(self.attrs@.skip(n as int) =~= Seq::<Attr>::empty());
        None
    }

    /// Whether this element's class attribute lists the token `cls`.
    pub fn has_class(&self, cls: &str) -> (r: bool)
        requires
            cls@.len() >= 1,
        ensures
            r == match attr_of(self.attrs@, "class"@) {
                Some(s) => has_class_token(s, cls@),
                None => false,
            },
    {
        let class_attr = self.attr("class");
        match class_attr {
            None => false,
            Some(s) => class_text_has_token(s.as_str(), cls),
        }
    }

    /// Concatenated character data of this element's direct text
    /// children.
    pub fn text(&self) -> (r: Vec<char>)
        ensures
            r@ == direct_text(self.children@),
    {
        let mut out: Vec<char> = Vec::new();
        let n = self.children.len();
        let mut i: usize = 0;
        assert(self.children@.take(0) =~= Seq::<Node>::empty());
        while i < n
            invariant
                0 <= i <= n,
                n == self.children@.len(),
                out@ == direct_text(self.children@.take(i as int)),
            decreases n - i,
        {
            match &self.children[i] {
                Node::Text(t) => {
                    crate::chars::push_chars(&mut out, t.as_str());
                },
                Node::Element(_) => {},
            }
            assert(self.children@.take(i as int + 1).drop_last() =~= self.children@.take(i as int));
            i = i + 1;
        }
        assert(self.children@.take(n as int) =~= self.children@);
        out
    }
}

/// Scans the class text for `cls` as a whitespace-delimited token.
fn class_text_has_token(s: &str, cls: &str) -> (r: bool)
    requires
        cls@.len() >= 1,
    ensures
        r == has_class_token(s@, cls@),
{
    let n = s.unicode_len();
    let m = cls.unicode_len();
    if m > n {
        assert(!has_class_token(s@, cls@));
        return false;
    }
    let mut i: usize = 0;
    while i <= n - m
        invariant
            0 <= i <= n - m + 1,
            n == s@.len(),
            m == cls@.len(),
            1 <= m <= n,
            forall|j: int|
                #![trigger s@.subrange(j, j + cls@.len())]
                0 <= j < i ==> !(s@.subrange(j, j + cls@.len()) == cls@ && (j == 0
                    || is_ascii_space(s@[j - 1])) && (j + cls@.len() == s@.len() || is_ascii_space(
                    s@[j + cls@.len()],
                ))),
        decreases n - i,
    {
        let before_ok = if i == 0 {
            true
        } else {
            exec_is_ascii_space(s.get_char(i - 1))
        };
        let after_ok = if i + m == n {
            true
        } else {
            exec_is_ascii_space(s.get_char(i + m))
        };
        if before_ok && after_ok && crate::chars::match_at(s, n, i, cls) {
            assert(has_class_token(s@, cls@));
            return true;
        }
        i = i + 1;
    }
    assert forall|j: int|
        #![trigger s@.subrange(j, j + cls@.len())]
        !(0 <= j && j + cls@.len() <= s@.len() && s@.subrange(j, j + cls@.len()) == cls@ && (j == 0
            || is_ascii_space(s@[j - 1])) && (j + cls@.len() == s@.len() || is_ascii_space(
            s@[j + cls@.len()],
        ))) by {
        if 0 <= j && j + cls@.len() <= s@.len() {
            assert(j < i);
        }
    }
    false
}

/// An opaque handle to one node of kuchikiki's parsed tree.
#[verifier::external_type_specification]
#[verifier::external_body]
pub struct ExNodeRef(kuchikiki::NodeRef);

/// Relies on kuchikiki's NodeRef::children: the node's children in
/// document order.
#[verifier::external_body]
fn dom_children(n: &kuchikiki::NodeRef) -> (r: Vec<kuchikiki::NodeRef>) {
    n.children().collect()
}

/// Relies on kuchikiki's NodeRef::as_text: the decoded character data
/// of a text node, `None` for any other node kind.
#[verifier::external_body]
fn dom_text(n: &kuchikiki::NodeRef) -> (r: Option<String>) {
    n.as_text().map(|t| t.borrow().clone())
}

/// Relies on kuchikiki's NodeRef::as_element: the local name of an
/// element node, `None` for any other node kind.
#[verifier::external_body]
fn dom_element_name(n: &kuchikiki::NodeRef) -> (r: Option<String>) {
    n.as_element().map(|e| e.name.local.to_string())
}

/// Relies on kuchikiki's NodeRef::as_element: the element's attributes
/// as name-value pairs, in the parser's stored order.
#[verifier::external_body]
fn dom_attributes(n: &kuchikiki::NodeRef) -> (r: Vec<(String, String)>) {
    match n.as_element() {
        Some(e) => e.attributes.borrow().map.iter().map(
            |(k, a)| (k.local.to_string(), a.value.clone()),
        ).collect(),
        None => Vec::new(),
    }
}

/// Copies one parsed node into the library's tree, to `depth` levels of
/// nesting; children below that depth are dropped. Comment and other
/// non-content nodes yield `None`.
fn node_from_dom(n: &kuchikiki::NodeRef, depth: u32) -> (r: Option<Node>)
    decreases depth, 0int,
{
    let t = dom_text(n);
    match t {
        Some(text) => Some(Node::Text(text)),
        None => {
            let name = dom_element_name(n);
            match name {
                Some(name) => {
                    let raw_attrs = dom_attributes(n);
                    let mut attrs: Vec<Attr> = Vec::new();
                    let mut i: usize = 0;
                    let na = raw_attrs.len();
                    while i < na
                        invariant
                            i <= na,
                            na == raw_attrs@.len(),
                        decreases na - i,
                    {
                        let k = raw_attrs[i].0.clone();
                        let v = raw_attrs[i].1.clone();
                        attrs.push(Attr { key: k, value: v });
                        i = i + 1;
                    }
                    let children = if depth == 0 {
                        Vec::new()
                    } else {
                        let refs = dom_children(n);
                        nodes_from_dom(&refs, depth - 1)
                    };
                    Some(Node::Element(Elem { name, attrs, children }))
                },
                None => None,
            }
        },
    }
}

/// Copies a list of parsed nodes into the library's tree, keeping
/// document order and skipping non-content nodes.
fn nodes_from_dom(refs: &Vec<kuchikiki::NodeRef>, depth: u32) -> (r: Vec<Node>)
    decreases depth, 1int,
{
    let mut out: Vec<Node> = Vec::new();
    let n = refs.len();
    let mut i: usize = 0;
    while i < n
        invariant
            i <= n,
            n == refs@.len(),
        decreases n - i,
    {
        match node_from_dom(&refs[i], depth) {
            Some(node) => out.push(node),
            None => {},
        }
        i = i + 1;
    }
    out
}

/// Nesting depth kept when copying a parsed element out of the page:
/// enough for the dialect's deepest reads (a post body, its anchors,
/// and their inline children).
pub const KEPT_DEPTH: u32 = 4;

/// The children of the first element matching the selector in the
/// parsed form of the markup, copied to the kept depth; `None` when no
/// element matches. The name stands for the whole deterministic
/// pipeline behind `parse_and_find_children`: html5ever's tree
/// building is a function of the markup alone, selector matching of
/// the tree and selector, and the copy of the result is the verified
/// `nodes_from_dom`.
pub uninterp spec fn parsed_children_of(html: Seq<char>, selectors: Seq<char>) -> Option<Seq<Node>>;

/// The value of attribute `key` on the first element matching the
/// selector in the parsed form of the markup; a name for the same
/// deterministic pipeline behind `parse_and_find_attr`.
pub uninterp spec fn parsed_attr_of(html: Seq<char>, selectors: Seq<char>, key: Seq<char>) -> Option<
    Seq<char>,
>;

/// Relies on kuchikiki's parse_html (the html5ever tree builder,
/// recovering from malformed input as the HTML standard prescribes)
/// and NodeRef::select_first: parses the page once and hands back the
/// children of the first element matching the CSS selector, copied
/// into the library's tree by the verified `nodes_from_dom`. The
/// result depends on the arguments alone, so the contract names it:
/// `parsed_children_of`.
#[verifier::external_body]
pub fn parse_and_find_children(html: &str, selectors: &str) -> (r: Option<Vec<Node>>)
    ensures
        match r {
            Some(v) => parsed_children_of(html@, selectors@) == Some(v@),
            None => parsed_children_of(html@, selectors@) is None,
        },
{
    let doc = kuchikiki::parse_html().one(html);
    match doc.select_first(selectors) {
        Ok(found) => {
            let refs: Vec<kuchikiki::NodeRef> = found.as_node().children().collect();
            Some(nodes_from_dom(&refs, KEPT_DEPTH))
        },
        Err(()) => None,
    }
}

/// Relies on kuchikiki's parse_html, NodeRef::select_first and
/// Attributes::get: the value of attribute `key` on the first element
/// matching the CSS selector. The result depends on the arguments
/// alone, so the contract names it: `parsed_attr_of`.
#[verifier::external_body]
pub fn parse_and_find_attr(html: &str, selectors: &str, key: &str) -> (r: Option<String>)
    ensures
        match r {
            Some(v) => parsed_attr_of(html@, selectors@, key@) == Some(v@),
            None => parsed_attr_of(html@, selectors@, key@) is None,
        },
{
    let doc = kuchikiki::parse_html().one(html);
    match doc.select_first(selectors) {
        Ok(found) => found.attributes.borrow().get(key).map(|v| v.to_string()),
        Err(()) => None,
    }
}

} // verus!
