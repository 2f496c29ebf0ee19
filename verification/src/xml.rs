//! XML documents as lists of nodes in document order, each with its place in the text.

use crate::entries;
use crate::text;
use vstd::prelude::*;
use vstd::string::*;

verus! {

// ----- Nodes -----

/// An attribute; `plain` tells that its name is in no namespace.
#[verifier::ext_equal]
pub struct XmlAttribute<S = String> {
    pub name: S,
    pub value: S,
    pub plain: bool,
}

impl DeepView for XmlAttribute<String> {
    type V = XmlAttribute<Seq<char>>;

    open spec fn deep_view(&self) -> XmlAttribute<Seq<char>> {
        XmlAttribute { name: self.name@, value: self.value@, plain: self.plain }
    }
}

/// A node: whether it is an element, its local name (empty for other nodes), its attributes,
/// its text (an element's is that of its first child where that is text), the place of its
/// parent in the list, and where it begins and ends.
#[verifier::ext_equal]
pub struct XmlNode<S = String, A = Vec<XmlAttribute>> {
    pub element: bool,
    pub name: S,
    pub attributes: A,
    pub text: Option<S>,
    pub parent: Option<usize>,
    pub start: usize,
    pub end: usize,
}

pub type NodeModel = XmlNode<Seq<char>, Seq<XmlAttribute<Seq<char>>>>;

impl DeepView for XmlNode<String, Vec<XmlAttribute>> {
    type V = XmlNode<Seq<char>, Seq<XmlAttribute<Seq<char>>>>;

    open spec fn deep_view(&self) -> NodeModel {
        XmlNode {
            element: self.element,
            name: self.name@,
            attributes: self.attributes.deep_view(),
            text: self.text.deep_view(),
            parent: self.parent,
            start: self.start,
            end: self.end,
        }
    }
}

/// The nodes of `roxmltree::Document::parse(text)` in document order, the root first, with
/// places counted in bytes; or the message of its error.
pub uninterp spec fn roxmltree_nodes(text: Seq<char>) -> Result<
    Seq<XmlNode<Seq<char>, Seq<XmlAttribute<Seq<char>>>>>,
    Seq<char>,
>;

pub open spec fn parsed<T: DeepView>(r: Result<T, String>) -> Result<T::V, Seq<char>> {
    match r {
        Ok(t) => Ok(t.deep_view()),
        Err(m) => Err(m@),
    }
}

/// `roxmltree::Document::parse` and a walk over `descendants`: each node of the document
/// becomes one entry of the list, whose place in the list is the node's id. Claimed: the
/// outcome is fixed by the text, and the range of each node is a range of bytes of the text.
#[verifier::external_body]
fn parse_nodes(text: &str) -> (r: Result<Vec<XmlNode>, String>)
    ensures
        parsed(r) == roxmltree_nodes(text@),
        parsed(r) matches Ok(nodes) ==> forall|i: int|
            0 <= i < nodes.len() ==> (#[trigger] nodes[i]).start <= nodes[i].end
                <= text::bytes_len(text@),
{
    let doc = roxmltree::Document::parse(text).map_err(|e| e.to_string())?;
    Ok(doc.descendants().map(|n| XmlNode {
        element: n.is_element(),
        name: n.tag_name().name().to_owned(),
        attributes: n.attributes().map(|a| XmlAttribute {
            name: a.name().to_owned(), value: a.value().to_owned(), plain: a.namespace().is_none(),
        }).collect(),
        text: n.text().map(|t| t.to_owned()),
        parent: n.parent().map(|p| p.id().get_usize()),
        start: n.range().start,
        end: n.range().end,
    }).collect())
}

/// A node with its places counted in characters.
pub open spec fn located(n: NodeModel, s: Seq<char>) -> NodeModel {
    XmlNode {
        start: text::chars_before_byte(s, n.start as int) as usize,
        end: text::chars_before_byte(s, n.end as int) as usize,
        ..n
    }
}

/// The nodes of a document, places counted in characters, or why it is no document.
pub open spec fn document(s: Seq<char>) -> Result<Seq<NodeModel>, Seq<char>> {
    match roxmltree_nodes(s) {
        Ok(nodes) => Ok(Seq::new(nodes.len(), |i: int| located(nodes[i], s))),
        Err(m) => Err(m),
    }
}

/// Whether each node stands in the text: it ends where it begins or behind, and no later than
/// the text.
pub open spec fn within(nodes: Seq<NodeModel>, s: Seq<char>) -> bool {
    forall|i: int|
        0 <= i < nodes.len() ==> (#[trigger] nodes[i]).start <= nodes[i].end <= s.len()
}

/// Reads a document.
pub fn parse(xml: &str) -> (r: Result<Vec<XmlNode>, String>)
    ensures
        parsed(r) == document(xml@),
        document(xml@) matches Ok(nodes) ==> within(nodes, xml@),
{
    let raw = match parse_nodes(xml) {
        Ok(raw) => raw,
        Err(m) => return Err(m),
    };
    let ghost all = raw.deep_view();
    let s = text::chars_of(xml);
    let places = text::char_places(&s);
    let mut nodes = raw;
    let mut i: usize = 0;
    while i < nodes.len()
        invariant
            i <= nodes.len(),
            nodes.len() == all.len(),
            s@ == xml@,
            places@.len() == text::bytes_len(s@) + 1,
            forall|b: int|
                0 <= b < places@.len() ==> #[trigger] places@[b] == text::chars_before_byte(s@, b),
            forall|k: int|
                0 <= k < nodes.len() ==> #[trigger] nodes@[k].deep_view() == (if k < i {
                    located(all[k], s@)
                } else {
                    all[k]
                }),
        decreases nodes.len() - i,
    {
        assert(nodes@[i as int].deep_view() == all[i as int]);
        let start = text::place_of(&places, &s, nodes[i].start);
        let end = text::place_of(&places, &s, nodes[i].end);
        let ghost before = nodes@;
        nodes[i].start = start;
        nodes[i].end = end;
        assert(nodes@[i as int].deep_view() == located(all[i as int], s@));
        assert forall|k: int| 0 <= k < nodes.len() && k != i implies #[trigger] nodes@[k]
            == before[k] by {}
        i = i + 1;
    }
    proof {
        let found = document(xml@)->Ok_0;
        assert(nodes.deep_view() == found);
        assert forall|k: int| 0 <= k < found.len() implies (#[trigger] found[k]).start
            <= found[k].end <= xml@.len() by {
            assert(all[k].start <= all[k].end);
            text::lemma_chars_before_ordered(xml@, all[k].start as int, all[k].end as int);
        }
    }
    Ok(nodes)
}

// ----- Moving about in a document -----

pub type Nodes = Seq<NodeModel>;

/// The value of the plain attribute `name`, looked for from the `i`-th on.
pub open spec fn attr_from(a: Seq<XmlAttribute<Seq<char>>>, name: Seq<char>, i: int) -> Option<
    Seq<char>,
>
    decreases a.len() - i,
{
    if i < 0 || i >= a.len() {
        None
    } else if a[i].plain && a[i].name == name {
        Some(a[i].value)
    } else {
        attr_from(a, name, i + 1)
    }
}

pub open spec fn attr(n: NodeModel, name: Seq<char>) -> Option<Seq<char>> {
    attr_from(n.attributes, name, 0)
}

pub fn attribute(n: &XmlNode, name: &str) -> (r: Option<String>)
    ensures
        r.deep_view() == attr(n.deep_view(), name@),
{
    let ghost all = n.attributes.deep_view();
    let mut i: usize = 0;
    while i < n.attributes.len()
        invariant
            i <= n.attributes.len(),
            all == n.attributes.deep_view(),
            attr_from(all, name@, 0) == attr_from(all, name@, i as int),
        decreases n.attributes.len() - i,
    {
        assert(all[i as int] == n.attributes@[i as int].deep_view());
        if n.attributes[i].plain && text::same(&n.attributes[i].name, name) {
            return Some(n.attributes[i].value.clone());
        }
        i = i + 1;
    }
    None
}

pub open spec fn attr_or_empty(n: NodeModel, name: Seq<char>) -> Seq<char> {
    match attr(n, name) {
        Some(t) => t,
        None => Seq::empty(),
    }
}

pub fn attribute_or_empty(n: &XmlNode, name: &str) -> (r: String)
    ensures
        r@ == attr_or_empty(n.deep_view(), name@),
{
    match attribute(n, name) {
        Some(t) => t,
        None => String::new(),
    }
}

pub open spec fn text_or_empty(n: NodeModel) -> Seq<char> {
    match n.text {
        Some(t) => t,
        None => Seq::empty(),
    }
}

pub fn node_text(n: &XmlNode) -> (r: String)
    ensures
        r@ == text_or_empty(n.deep_view()),
{
    match &n.text {
        Some(t) => t.clone(),
        None => String::new(),
    }
}

/// Whether the parent of node `j` stands before place `i`.
pub open spec fn leaves(nodes: Nodes, i: int, j: int) -> bool {
    match nodes[j].parent {
        Some(p) => p < i,
        None => true,
    }
}

/// The place behind the subtree of node `i`, looked for from `j` on: the first node whose
/// parent stands before `i`.
pub open spec fn subtree_end_from(nodes: Nodes, i: int, j: int) -> int
    decreases nodes.len() - j,
{
    if j < 0 || j >= nodes.len() || leaves(nodes, i, j) {
        j
    } else {
        subtree_end_from(nodes, i, j + 1)
    }
}

/// The place behind the subtree of node `i`: in document order a node and all that it
/// contains stand together.
pub open spec fn subtree_end(nodes: Nodes, i: int) -> int {
    subtree_end_from(nodes, i, i + 1)
}

pub fn end_of_subtree(nodes: &Vec<XmlNode>, i: usize) -> (r: usize)
    requires
        i < nodes.len(),
    ensures
        r == subtree_end(nodes.deep_view(), i as int),
        i < r <= nodes.len(),
{
    let ghost all = nodes.deep_view();
    let mut j: usize = i + 1;
    while j < nodes.len()
        invariant
            i < j <= nodes.len(),
            all == nodes.deep_view(),
            subtree_end(all, i as int) == subtree_end_from(all, i as int, j as int),
        decreases nodes.len() - j,
    {
        assert(all[j as int] == nodes@[j as int].deep_view());
        let outside = match nodes[j].parent {
            Some(p) => p < i,
            None => true,
        };
        if outside {
            return j;
        }
        j = j + 1;
    }
    j
}

/// The places from `from` up to `until` of the nodes with the given name.
pub open spec fn named_between(nodes: Nodes, name: Seq<char>, from: int, until: int) -> Seq<int>
    decreases until - from,
{
    if until <= from {
        Seq::empty()
    } else if nodes[until - 1].name == name {
        named_between(nodes, name, from, until - 1).push(until - 1)
    } else {
        named_between(nodes, name, from, until - 1)
    }
}

/// The places of the nodes with the given name in the whole document.
pub open spec fn named(nodes: Nodes, name: Seq<char>) -> Seq<int> {
    named_between(nodes, name, 0, nodes.len() as int)
}

/// The places of the nodes with the given name among node `i` and what it contains.
pub open spec fn named_in(nodes: Nodes, i: int, name: Seq<char>) -> Seq<int> {
    named_between(nodes, name, i, subtree_end(nodes, i))
}

pub open spec fn ints(v: Seq<usize>) -> Seq<int> {
    Seq::new(v.len(), |i: int| v[i] as int)
}

fn list_named(nodes: &Vec<XmlNode>, name: &str, from: usize, until: usize) -> (r: Vec<usize>)
    requires
        until <= nodes.len(),
    ensures
        ints(r@) == named_between(nodes.deep_view(), name@, from as int, until as int),
        forall|k: int| 0 <= k < r@.len() ==> from <= #[trigger] r@[k] < until,
{
    let ghost all = nodes.deep_view();
    let mut out: Vec<usize> = Vec::new();
    let mut i: usize = from;
    assert(ints(out@) == Seq::<int>::empty());
    while i < until
        invariant
            until <= nodes.len(),
            from <= i,
            i <= until || i == from,
            all == nodes.deep_view(),
            ints(out@) == named_between(all, name@, from as int, i as int),
            forall|k: int| 0 <= k < out@.len() ==> from <= #[trigger] out@[k] < i,
        decreases until - i,
    {
        assert(all[i as int] == nodes@[i as int].deep_view());
        if text::same(&nodes[i].name, name) {
            let ghost done = ints(out@);
            out.push(i);
            assert(ints(out@) == done.push(i as int));
        }
        i = i + 1;
    }
    if until <= from {
        assert(named_between(all, name@, from as int, until as int) == Seq::<int>::empty());
    }
    out
}

pub fn all_named(nodes: &Vec<XmlNode>, name: &str) -> (r: Vec<usize>)
    ensures
        ints(r@) == named(nodes.deep_view(), name@),
        forall|k: int| 0 <= k < r@.len() ==> #[trigger] r@[k] < nodes.len(),
{
    assert(nodes.deep_view().len() == nodes.len());
    list_named(nodes, name, 0, nodes.len())
}

pub fn all_named_in(nodes: &Vec<XmlNode>, i: usize, name: &str) -> (r: Vec<usize>)
    requires
        i < nodes.len(),
    ensures
        ints(r@) == named_in(nodes.deep_view(), i as int, name@),
        forall|k: int| 0 <= k < r@.len() ==> i <= #[trigger] r@[k] < nodes.len(),
{
    let end = end_of_subtree(nodes, i);
    list_named(nodes, name, i, end)
}

pub open spec fn first_of(s: Seq<int>) -> Option<int> {
    if s.len() > 0 {
        Some(s[0])
    } else {
        None
    }
}

/// The first node of the document with the given name.
pub fn first_named(nodes: &Vec<XmlNode>, name: &str) -> (r: Option<usize>)
    ensures
        text::pos(r) == first_of(named(nodes.deep_view(), name@)),
        r matches Some(k) ==> k < nodes.len(),
{
    let found = all_named(nodes, name);
    if found.len() > 0 {
        assert(ints(found@)[0] == found@[0]);
        Some(found[0])
    } else {
        None
    }
}

/// The first node with the given name among node `i` and what it contains.
pub fn first_named_in(nodes: &Vec<XmlNode>, i: usize, name: &str) -> (r: Option<usize>)
    requires
        i < nodes.len(),
    ensures
        text::pos(r) == first_of(named_in(nodes.deep_view(), i as int, name@)),
        r matches Some(k) ==> i <= k < nodes.len(),
{
    let found = all_named_in(nodes, i, name);
    if found.len() > 0 {
        assert(ints(found@)[0] == found@[0]);
        Some(found[0])
    } else {
        None
    }
}

/// The children of node `i` up to place `until`.
pub open spec fn children_until(nodes: Nodes, i: int, until: int) -> Seq<int>
    decreases until - i,
{
    if until <= i + 1 {
        Seq::empty()
    } else if nodes[until - 1].parent == Some(i as usize) {
        children_until(nodes, i, until - 1).push(until - 1)
    } else {
        children_until(nodes, i, until - 1)
    }
}

pub open spec fn children(nodes: Nodes, i: int) -> Seq<int> {
    children_until(nodes, i, subtree_end(nodes, i))
}

pub fn children_of(nodes: &Vec<XmlNode>, i: usize) -> (r: Vec<usize>)
    requires
        i < nodes.len(),
    ensures
        ints(r@) == children(nodes.deep_view(), i as int),
        forall|k: int| 0 <= k < r@.len() ==> i < #[trigger] r@[k] < nodes.len(),
{
    let ghost all = nodes.deep_view();
    let end = end_of_subtree(nodes, i);
    let mut out: Vec<usize> = Vec::new();
    let mut j: usize = i + 1;
    assert(ints(out@) == Seq::<int>::empty());
    while j < end
        invariant
            i < j <= end <= nodes.len(),
            all == nodes.deep_view(),
            ints(out@) == children_until(all, i as int, j as int),
            forall|k: int| 0 <= k < out@.len() ==> i < #[trigger] out@[k] < j,
        decreases end - j,
    {
        assert(all[j as int] == nodes@[j as int].deep_view());
        if nodes[j].parent == Some(i) {
            let ghost done = ints(out@);
            out.push(j);
            assert(ints(out@) == done.push(j as int));
        }
        j = j + 1;
    }
    out
}

/// The first of the given nodes with the given name, from the `n`-th on.
pub open spec fn first_child_from(nodes: Nodes, list: Seq<int>, name: Seq<char>, n: int) -> Option<
    int,
>
    decreases list.len() - n,
{
    if n < 0 || n >= list.len() {
        None
    } else if nodes[list[n]].name == name {
        Some(list[n])
    } else {
        first_child_from(nodes, list, name, n + 1)
    }
}

/// The first child of node `i` with the given name.
pub open spec fn child(nodes: Nodes, i: int, name: Seq<char>) -> Option<int> {
    first_child_from(nodes, children(nodes, i), name, 0)
}

pub fn child_named(nodes: &Vec<XmlNode>, i: usize, name: &str) -> (r: Option<usize>)
    requires
        i < nodes.len(),
    ensures
        text::pos(r) == child(nodes.deep_view(), i as int, name@),
        r matches Some(k) ==> i < k < nodes.len(),
{
    let ghost all = nodes.deep_view();
    let list = children_of(nodes, i);
    let ghost model = ints(list@);
    let mut n: usize = 0;
    while n < list.len()
        invariant
            n <= list.len(),
            all == nodes.deep_view(),
            model == ints(list@),
            forall|k: int| 0 <= k < list@.len() ==> i < #[trigger] list@[k] < nodes.len(),
            first_child_from(all, model, name@, 0) == first_child_from(all, model, name@, n as int),
        decreases list.len() - n,
    {
        let at = list[n];
        assert(model[n as int] == at as int);
        assert(all[at as int] == nodes@[at as int].deep_view());
        if text::same(&nodes[at].name, name) {
            return Some(at);
        }
        n = n + 1;
    }
    None
}

/// The text of the first child of node `i` with the given name; empty where there is none.
pub open spec fn text_of_child(nodes: Nodes, i: int, name: Seq<char>) -> Seq<char> {
    match child(nodes, i, name) {
        Some(k) => text_or_empty(nodes[k]),
        None => Seq::empty(),
    }
}

pub fn child_text(nodes: &Vec<XmlNode>, i: usize, name: &str) -> (r: String)
    requires
        i < nodes.len(),
    ensures
        r@ == text_of_child(nodes.deep_view(), i as int, name@),
{
    match child_named(nodes, i, name) {
        Some(k) => {
            assert(nodes.deep_view()[k as int] == nodes@[k as int].deep_view());
            node_text(&nodes[k])
        },
        None => String::new(),
    }
}

/// The texts of the given nodes put together.
pub open spec fn texts_joined(nodes: Nodes, list: Seq<int>) -> Seq<char>
    decreases list.len(),
{
    if list.len() == 0 {
        Seq::empty()
    } else {
        texts_joined(nodes, list.drop_last()) + text_or_empty(nodes[list.last()])
    }
}

/// The texts of the nodes with the given name among node `i` and what it contains, put
/// together.
pub fn join_texts_in(nodes: &Vec<XmlNode>, i: usize, name: &str) -> (r: String)
    requires
        i < nodes.len(),
    ensures
        r@ == texts_joined(
            nodes.deep_view(),
            named_in(nodes.deep_view(), i as int, name@),
        ),
{
    let ghost all = nodes.deep_view();
    let list = all_named_in(nodes, i, name);
    let ghost model = ints(list@);
    let mut out = String::new();
    let mut n: usize = 0;
    while n < list.len()
        invariant
            n <= list.len(),
            all == nodes.deep_view(),
            model == ints(list@),
            forall|k: int| 0 <= k < list@.len() ==> i <= #[trigger] list@[k] < nodes.len(),
            out@ == texts_joined(all, model.take(n as int)),
        decreases list.len() - n,
    {
        let at = list[n];
        assert(model.take(n + 1).drop_last() == model.take(n as int));
        assert(model.take(n + 1).last() == at as int);
        assert(all[at as int] == nodes@[at as int].deep_view());
        out.append(&node_text(&nodes[at]));
        n = n + 1;
    }
    assert(model.take(model.len() as int) == model);
    out
}

// ----- Text in documents -----

/// A text as it stands in a document.
pub open spec fn escaped(s: Seq<char>) -> Seq<char> {
    text::replaced(
        text::replaced(
            text::replaced(
                text::replaced(text::replaced(s, "&"@, "&amp;"@), "<"@, "&lt;"@),
                ">"@,
                "&gt;"@,
            ),
            "\""@,
            "&quot;"@,
        ),
        "'"@,
        "&apos;"@,
    )
}

pub fn xml_escape(value: &str) -> (r: String)
    ensures
        r@ == escaped(value@),
{
    let s = text::replace(value, "&", "&amp;");
    let s = text::replace(&s, "<", "&lt;");
    let s = text::replace(&s, ">", "&gt;");
    let s = text::replace(&s, "\"", "&quot;");
    text::replace(&s, "'", "&apos;")
}

/// A text with each `c` replaced by `t`.
spec fn swapped(s: Seq<char>, c: char, t: Seq<char>) -> Seq<char>
    decreases s.len(),
{
    if s.len() == 0 {
        s
    } else {
        (if s[0] == c {
            t
        } else {
            seq![s[0]]
        }) + swapped(s.skip(1), c, t)
    }
}

proof fn lemma_replaced_is_swapped(s: Seq<char>, c: char, t: Seq<char>, i: int)
    requires
        0 <= i <= s.len(),
    ensures
        text::replaced_from(s, seq![c], t, i) == swapped(s.skip(i), c, t),
    decreases s.len() - i,
{
    if i < s.len() {
        lemma_replaced_is_swapped(s, c, t, i + 1);
        assert(s.skip(i).skip(1) == s.skip(i + 1));
        assert(s.subrange(i, i + 1)[0] == s[i]);
        if s[i] == c {
            assert(s.subrange(i, i + 1) == seq![c]);
        }
    } else {
        assert(s.skip(i) == text::slice(s, i, s.len() as int));
    }
}

proof fn lemma_swapped_in_parts(a: Seq<char>, b: Seq<char>, c: char, t: Seq<char>)
    ensures
        swapped(a + b, c, t) == swapped(a, c, t) + swapped(b, c, t),
    decreases a.len(),
{
    if a.len() == 0 {
        assert(a + b == b);
        assert(swapped(a, c, t) + swapped(b, c, t) == swapped(b, c, t));
    } else {
        lemma_swapped_in_parts(a.skip(1), b, c, t);
        assert((a + b).skip(1) == a.skip(1) + b);
        let head = if a[0] == c {
            t
        } else {
            seq![a[0]]
        };
        assert(head + (swapped(a.skip(1), c, t) + swapped(b, c, t)) == (head + swapped(
            a.skip(1),
            c,
            t,
        )) + swapped(b, c, t));
    }
}

proof fn lemma_nothing_swapped(s: Seq<char>, c: char, t: Seq<char>)
    requires
        !s.contains(c),
    ensures
        swapped(s, c, t) == s,
    decreases s.len(),
{
    if s.len() > 0 {
        assert forall|i: int| 0 <= i < s.skip(1).len() implies s.skip(1)[i] != c by {
            assert(s.contains(s[i + 1]));
        }
        assert(s.contains(s[0]));
        lemma_nothing_swapped(s.skip(1), c, t);
        assert(seq![s[0]] + s.skip(1) == s);
    }
}

/// A character as it stands in a document.
pub open spec fn escaped_char(c: char) -> Seq<char> {
    if c == '&' {
        "&amp;"@
    } else if c == '<' {
        "&lt;"@
    } else if c == '>' {
        "&gt;"@
    } else if c == '"' {
        "&quot;"@
    } else if c == '\'' {
        "&apos;"@
    } else {
        seq![c]
    }
}

spec fn five_swaps(s: Seq<char>) -> Seq<char> {
    swapped(
        swapped(
            swapped(swapped(swapped(s, '&', "&amp;"@), '<', "&lt;"@), '>', "&gt;"@),
            '"',
            "&quot;"@,
        ),
        '\'',
        "&apos;"@,
    )
}

proof fn lemma_escaped_is_five_swaps(s: Seq<char>)
    ensures
        escaped(s) == five_swaps(s),
{
    reveal_strlit("&");
    reveal_strlit("<");
    reveal_strlit(">");
    reveal_strlit("\"");
    reveal_strlit("'");
    assert("&"@ == seq!['&']);
    assert("<"@ == seq!['<']);
    assert(">"@ == seq!['>']);
    assert("\""@ == seq!['"']);
    assert("'"@ == seq!['\'']);
    let a = swapped(s, '&', "&amp;"@);
    let b = swapped(a, '<', "&lt;"@);
    let c = swapped(b, '>', "&gt;"@);
    let d = swapped(c, '"', "&quot;"@);
    assert(s.skip(0) == s && a.skip(0) == a && b.skip(0) == b && c.skip(0) == c && d.skip(0) == d);
    lemma_replaced_is_swapped(s, '&', "&amp;"@, 0);
    lemma_replaced_is_swapped(a, '<', "&lt;"@, 0);
    lemma_replaced_is_swapped(b, '>', "&gt;"@, 0);
    lemma_replaced_is_swapped(c, '"', "&quot;"@, 0);
    lemma_replaced_is_swapped(d, '\'', "&apos;"@, 0);
}

proof fn lemma_one_swapped(x: char, c: char, t: Seq<char>)
    ensures
        swapped(seq![x], c, t) == (if x == c {
            t
        } else {
            seq![x]
        }),
{
    assert(seq![x].skip(1).len() == 0);
    assert(swapped(seq![x].skip(1), c, t) == Seq::<char>::empty());
    assert(t + Seq::<char>::empty() == t);
    assert(seq![x] + Seq::<char>::empty() == seq![x]);
}

proof fn lemma_one_escaped(x: char)
    ensures
        five_swaps(seq![x]) == escaped_char(x),
{
    reveal_strlit("&amp;");
    reveal_strlit("&lt;");
    reveal_strlit("&gt;");
    reveal_strlit("&quot;");
    reveal_strlit("&apos;");
    lemma_one_swapped(x, '&', "&amp;"@);
    lemma_one_swapped(x, '<', "&lt;"@);
    lemma_one_swapped(x, '>', "&gt;"@);
    lemma_one_swapped(x, '"', "&quot;"@);
    lemma_one_swapped(x, '\'', "&apos;"@);
    if x == '&' || x == '<' || x == '>' || x == '"' {
        let e = escaped_char(x);
        if x == '&' {
            lemma_nothing_swapped(e, '<', "&lt;"@);
        }
        if x == '&' || x == '<' {
            lemma_nothing_swapped(e, '>', "&gt;"@);
        }
        if x == '&' || x == '<' || x == '>' {
            lemma_nothing_swapped(e, '"', "&quot;"@);
        }
        lemma_nothing_swapped(e, '\'', "&apos;"@);
    }
}

/// A text is escaped character by character.
pub proof fn law_characters_are_escaped_one_by_one(a: Seq<char>, b: Seq<char>, c: char)
    ensures
        escaped(seq![c]) == escaped_char(c),
        escaped(a + b) == escaped(a) + escaped(b),
{
    lemma_escaped_is_five_swaps(seq![c]);
    lemma_one_escaped(c);
    lemma_escaped_is_five_swaps(a);
    lemma_escaped_is_five_swaps(b);
    lemma_escaped_is_five_swaps(a + b);
    let (x, y) = (swapped(a, '&', "&amp;"@), swapped(b, '&', "&amp;"@));
    lemma_swapped_in_parts(a, b, '&', "&amp;"@);
    lemma_swapped_in_parts(x, y, '<', "&lt;"@);
    let (x, y) = (swapped(x, '<', "&lt;"@), swapped(y, '<', "&lt;"@));
    lemma_swapped_in_parts(x, y, '>', "&gt;"@);
    let (x, y) = (swapped(x, '>', "&gt;"@), swapped(y, '>', "&gt;"@));
    lemma_swapped_in_parts(x, y, '"', "&quot;"@);
    let (x, y) = (swapped(x, '"', "&quot;"@), swapped(y, '"', "&quot;"@));
    lemma_swapped_in_parts(x, y, '\'', "&apos;"@);
}

/// The text that an escaped text stands for.
pub open spec fn unescaped(s: Seq<char>) -> Seq<char>
    decreases s.len(),
{
    if s.len() == 0 {
        s
    } else if text::starts(s, "&amp;"@) && s.len() >= 5 {
        seq!['&'] + unescaped(s.skip(5))
    } else if text::starts(s, "&lt;"@) && s.len() >= 4 {
        seq!['<'] + unescaped(s.skip(4))
    } else if text::starts(s, "&gt;"@) && s.len() >= 4 {
        seq!['>'] + unescaped(s.skip(4))
    } else if text::starts(s, "&quot;"@) && s.len() >= 6 {
        seq!['"'] + unescaped(s.skip(6))
    } else if text::starts(s, "&apos;"@) && s.len() >= 6 {
        seq!['\''] + unescaped(s.skip(6))
    } else {
        seq![s[0]] + unescaped(s.skip(1))
    }
}

proof fn lemma_first_unescaped(c: char, rest: Seq<char>)
    ensures
        unescaped(escaped_char(c) + rest) == seq![c] + unescaped(rest),
{
    reveal_strlit("&amp;");
    reveal_strlit("&lt;");
    reveal_strlit("&gt;");
    reveal_strlit("&quot;");
    reveal_strlit("&apos;");
    let e = escaped_char(c);
    let s = e + rest;
    assert(s.skip(e.len() as int) == rest);
    assert(s.subrange(0, e.len() as int) == e);
    if s.len() >= 4 {
        assert(s.subrange(0, 4)[0] == s[0] && s.subrange(0, 4)[1] == s[1]);
    }
    if s.len() >= 5 {
        assert(s.subrange(0, 5)[0] == s[0] && s.subrange(0, 5)[1] == s[1]);
    }
    if s.len() >= 6 {
        assert(s.subrange(0, 6)[0] == s[0] && s.subrange(0, 6)[1] == s[1] && s.subrange(0, 6)[2]
            == s[2]);
    }
}

/// What is escaped reads back.
pub proof fn law_escaped_text_reads_back(s: Seq<char>)
    ensures
        unescaped(escaped(s)) == s,
    decreases s.len(),
{
    if s.len() == 0 {
        lemma_escaped_is_five_swaps(s);
    } else {
        assert(seq![s[0]] + s.skip(1) == s);
        law_characters_are_escaped_one_by_one(seq![s[0]], s.skip(1), s[0]);
        lemma_first_unescaped(s[0], escaped(s.skip(1)));
        law_escaped_text_reads_back(s.skip(1));
    }
}

/// An escaped text opens and closes no tag and ends no attribute.
pub proof fn law_escaped_text_holds_no_markup(s: Seq<char>, i: int)
    requires
        0 <= i < escaped(s).len(),
    ensures
        escaped(s)[i] != '<' && escaped(s)[i] != '>' && escaped(s)[i] != '"' && escaped(s)[i]
            != '\'',
    decreases s.len(),
{
    if s.len() == 0 {
        lemma_escaped_is_five_swaps(s);
    } else {
        assert(seq![s[0]] + s.skip(1) == s);
        law_characters_are_escaped_one_by_one(seq![s[0]], s.skip(1), s[0]);
        let e = escaped_char(s[0]);
        reveal_strlit("&amp;");
        reveal_strlit("&lt;");
        reveal_strlit("&gt;");
        reveal_strlit("&quot;");
        reveal_strlit("&apos;");
        if i >= e.len() {
            law_escaped_text_holds_no_markup(s.skip(1), i - e.len());
        }
    }
}

/// A text without signs of markup stands as it is before an escaped one.
pub proof fn lemma_escaped_behind_plain(plain: Seq<char>, s: Seq<char>)
    requires
        forall|j: int|
            0 <= j < plain.len() ==> escaped_char(#[trigger] plain[j]) == seq![plain[j]],
    ensures
        escaped(plain + s) == plain + escaped(s),
    decreases plain.len(),
{
    if plain.len() == 0 {
        assert(plain + s == s);
        assert(plain + escaped(s) == escaped(s));
    } else {
        let c = plain[0];
        let rest = plain.skip(1);
        assert(seq![c] + (rest + s) == plain + s);
        law_characters_are_escaped_one_by_one(seq![c], rest + s, c);
        assert forall|j: int| 0 <= j < rest.len() implies escaped_char(#[trigger] rest[j])
            == seq![rest[j]] by {
            assert(rest[j] == plain[j + 1]);
        }
        lemma_escaped_behind_plain(rest, s);
        assert(seq![c] + (rest + escaped(s)) == plain + escaped(s));
    }
}

// ----- Markup read as it stands -----

/// The first place from `i` on at which `c` stands.
pub open spec fn sign_from(s: Seq<char>, c: char, i: int) -> Option<int>
    decreases s.len() - i,
{
    if i < 0 || i >= s.len() {
        None
    } else if s[i] == c {
        Some(i)
    } else {
        sign_from(s, c, i + 1)
    }
}

/// The tags of a text, in order: each from its bracket to the bracket that closes it.
pub open spec fn tags(s: Seq<char>) -> Seq<Seq<char>>
    decreases s.len(),
{
    if s.len() == 0 {
        Seq::empty()
    } else if s[0] != '<' {
        tags(s.skip(1))
    } else {
        match sign_from(s, '>', 0) {
            Some(e) => if 0 <= e < s.len() {
                seq![s.take(e + 1)] + tags(s.skip(e + 1))
            } else {
                Seq::empty()
            },
            None => Seq::empty(),
        }
    }
}

/// Whether a character ends the name of a tag.
pub open spec fn ends_name(c: char) -> bool {
    text::is_white(c) || c == '/' || c == '>'
}

/// The first place from `i` on that is not in a name.
pub open spec fn name_end(t: Seq<char>, i: int) -> int
    decreases t.len() - i,
{
    if i < 0 || i >= t.len() || ends_name(t[i]) {
        i
    } else {
        name_end(t, i + 1)
    }
}

/// The name of a tag, with its prefix; empty for a tag that closes an element.
pub open spec fn tag_name(t: Seq<char>) -> Seq<char> {
    text::slice(t, 1, name_end(t, 1))
}

/// The attribute that a text begins with, and what follows it.
pub open spec fn first_attr(s: Seq<char>) -> Option<((Seq<char>, Seq<char>), Seq<char>)> {
    match sign_from(s, '=', 0) {
        Some(e) => if e + 1 < s.len() && s[e + 1] == '"' {
            match sign_from(s, '"', e + 2) {
                Some(q) => Some(((s.take(e), unescaped(s.subrange(e + 2, q))), s.skip(q + 1))),
                None => None,
            }
        } else {
            None
        },
        None => None,
    }
}

/// The attributes of the inside of a tag, in order.
pub open spec fn attrs_in(s: Seq<char>) -> Seq<(Seq<char>, Seq<char>)>
    decreases s.len(),
{
    if s.len() == 0 {
        Seq::empty()
    } else if text::is_white(s[0]) {
        attrs_in(s.skip(1))
    } else {
        match first_attr(s) {
            Some((a, rest)) => if rest.len() < s.len() {
                seq![a] + attrs_in(rest)
            } else {
                Seq::empty()
            },
            None => Seq::empty(),
        }
    }
}

/// Whether the inside of a tag is attributes and space, and nothing else.
pub open spec fn only_attrs(s: Seq<char>) -> bool
    decreases s.len(),
{
    if s.len() == 0 {
        true
    } else if text::is_white(s[0]) {
        only_attrs(s.skip(1))
    } else {
        match first_attr(s) {
            Some((a, rest)) => rest.len() < s.len() && only_attrs(rest),
            None => false,
        }
    }
}

/// The attributes of a tag, in order.
pub open spec fn tag_attrs(t: Seq<char>) -> Seq<(Seq<char>, Seq<char>)> {
    attrs_in(text::slice(t, name_end(t, 1), t.len() as int))
}

/// The value of an attribute of a tag.
pub open spec fn tag_attr(t: Seq<char>, name: Seq<char>) -> Option<Seq<char>> {
    entries::get(tag_attrs(t), name)
}

proof fn lemma_sign_from(s: Seq<char>, c: char, i: int)
    requires
        0 <= i,
    ensures
        match sign_from(s, c, i) {
            Some(k) => i <= k < s.len() && s[k] == c && forall|j: int|
                i <= j < k ==> #[trigger] s[j] != c,
            None => forall|j: int| i <= j < s.len() ==> #[trigger] s[j] != c,
        },
    decreases s.len() - i,
{
    if i < s.len() && s[i] != c {
        lemma_sign_from(s, c, i + 1);
    }
}

proof fn lemma_sign_at(s: Seq<char>, c: char, i: int, k: int)
    requires
        0 <= i <= k < s.len(),
        s[k] == c,
        forall|j: int| i <= j < k ==> #[trigger] s[j] != c,
    ensures
        sign_from(s, c, i) == Some(k),
    decreases k - i,
{
    if i < k {
        assert(s[i] != c);
        lemma_sign_at(s, c, i + 1, k);
    }
}

/// A text without brackets has no tags.
pub proof fn lemma_text_has_no_tags(t: Seq<char>, rest: Seq<char>)
    requires
        forall|j: int| 0 <= j < t.len() ==> #[trigger] t[j] != '<',
    ensures
        tags(t + rest) == tags(rest),
    decreases t.len(),
{
    if t.len() == 0 {
        assert(t + rest == rest);
    } else {
        assert(t[0] != '<');
        assert((t + rest).skip(1) == t.skip(1) + rest);
        assert forall|j: int| 0 <= j < t.skip(1).len() implies #[trigger] t.skip(1)[j] != '<' by {
            assert(t[j + 1] != '<');
        }
        lemma_text_has_no_tags(t.skip(1), rest);
    }
}

/// Whether a text is one tag.
pub open spec fn is_tag(t: Seq<char>) -> bool {
    &&& t.len() >= 2
    &&& t[0] == '<'
    &&& t[t.len() - 1] == '>'
    &&& forall|j: int| 0 <= j < t.len() - 1 ==> #[trigger] t[j] != '>'
}

pub proof fn lemma_first_tag(t: Seq<char>, rest: Seq<char>)
    requires
        is_tag(t),
    ensures
        tags(t + rest) == seq![t] + tags(rest),
{
    let s = t + rest;
    let e = t.len() - 1;
    assert forall|j: int| 0 <= j < e implies #[trigger] s[j] != '>' by {
        assert(s[j] == t[j]);
    }
    lemma_sign_at(s, '>', 0, e);
    assert(s.take(e + 1) == t);
    assert(s.skip(e + 1) == rest);
}

/// Whether a text can be the name of a tag or an attribute.
pub open spec fn plain_name(name: Seq<char>) -> bool {
    &&& name.len() > 0
    &&& forall|j: int|
        0 <= j < name.len() ==> !ends_name(#[trigger] name[j]) && name[j] != '=' && name[j] != '"'
            && name[j] != '<'
}

proof fn lemma_name_end(t: Seq<char>, i: int, k: int)
    requires
        0 <= i <= k <= t.len(),
        forall|j: int| i <= j < k ==> !ends_name(#[trigger] t[j]),
        k < t.len() ==> ends_name(t[k]),
    ensures
        name_end(t, i) == k,
    decreases k - i,
{
    if i < k {
        assert(!ends_name(t[i]));
        lemma_name_end(t, i + 1, k);
    }
}

/// The name and the attributes of a tag that is put together of a name and the rest.
pub proof fn lemma_tag_parts(name: Seq<char>, rest: Seq<char>)
    requires
        plain_name(name),
        rest.len() == 0 || ends_name(rest[0]),
    ensures
        tag_name("<"@ + name + rest) == name,
        tag_attrs("<"@ + name + rest) == attrs_in(rest),
{
    reveal_strlit("<");
    let t = "<"@ + name + rest;
    let k = 1 + name.len() as int;
    assert forall|j: int| 1 <= j < k implies !ends_name(#[trigger] t[j]) by {
        assert(t[j] == name[j - 1]);
    }
    if k < t.len() {
        assert(t[k] == rest[0]);
    }
    lemma_name_end(t, 1, k);
    assert(t.subrange(1, k) == name);
    assert(t.subrange(k, t.len() as int) == rest);
}

/// An attribute that is written reads back, and those behind it follow.
pub proof fn lemma_first_attr(name: Seq<char>, value: Seq<char>, rest: Seq<char>)
    requires
        plain_name(name),
        forall|j: int| 0 <= j < value.len() ==> #[trigger] value[j] != '"',
    ensures
        attrs_in(name + "=\""@ + value + "\""@ + rest) == seq![(name, unescaped(value))] + attrs_in(
            rest,
        ),
        only_attrs(name + "=\""@ + value + "\""@ + rest) == only_attrs(rest),
{
    reveal_strlit("=\"");
    reveal_strlit("\"");
    let s = name + "=\""@ + value + "\""@ + rest;
    let e = name.len() as int;
    let q = e + 2 + value.len();
    assert(!ends_name(name[0]));
    assert(s[0] == name[0]);
    assert forall|j: int| 0 <= j < e implies #[trigger] s[j] != '=' by {
        assert(s[j] == name[j]);
    }
    assert(s[e] == '=');
    assert(s[e + 1] == '"');
    lemma_sign_at(s, '=', 0, e);
    assert forall|j: int| e + 2 <= j < q implies #[trigger] s[j] != '"' by {
        assert(s[j] == value[j - e - 2]);
    }
    assert(s[q] == '"');
    lemma_sign_at(s, '"', e + 2, q);
    assert(s.take(e) == name);
    assert(s.subrange(e + 2, q) == value);
    assert(s.skip(q + 1) == rest);
}

pub proof fn lemma_white_first(c: char, rest: Seq<char>)
    requires
        text::is_white(c),
    ensures
        attrs_in(seq![c] + rest) == attrs_in(rest),
        only_attrs(seq![c] + rest) == only_attrs(rest),
{
    assert((seq![c] + rest).skip(1) == rest);
}

/// An escaped value of an attribute, with a blank before the attribute.
pub proof fn lemma_written_attr(name: Seq<char>, value: Seq<char>, rest: Seq<char>)
    requires
        plain_name(name),
    ensures
        attrs_in(" "@ + name + "=\""@ + escaped(value) + "\""@ + rest) == seq![(name, value)]
            + attrs_in(rest),
        only_attrs(" "@ + name + "=\""@ + escaped(value) + "\""@ + rest) == only_attrs(rest),
{
    reveal_strlit(" ");
    let t = name + "=\""@ + escaped(value) + "\""@ + rest;
    assert(" "@ + name + "=\""@ + escaped(value) + "\""@ + rest == seq![' '] + t);
    assert forall|j: int| 0 <= j < escaped(value).len() implies #[trigger] escaped(value)[j]
        != '"' by {
        law_escaped_text_holds_no_markup(value, j);
    }
    lemma_white_first(' ', t);
    lemma_first_attr(name, escaped(value), rest);
    law_escaped_text_reads_back(value);
}

/// What closes a tag holds no attributes.
pub proof fn lemma_closings_hold_no_attrs()
    ensures
        attrs_in(">"@) == Seq::<(Seq<char>, Seq<char>)>::empty(),
        attrs_in("/>"@) == Seq::<(Seq<char>, Seq<char>)>::empty(),
        attrs_in(" />"@) == Seq::<(Seq<char>, Seq<char>)>::empty(),
{
    reveal_strlit(">");
    reveal_strlit("/>");
    reveal_strlit(" />");
    lemma_sign_from(">"@, '=', 0);
    lemma_sign_from("/>"@, '=', 0);
    assert(" />"@ == seq![' '] + "/>"@);
    lemma_white_first(' ', "/>"@);
}

proof fn lemma_first_attr_of_more(s: Seq<char>, t: Seq<char>)
    requires
        first_attr(s) is Some,
    ensures
        first_attr(s + t) matches Some((a, rest)) && a == first_attr(s)->Some_0.0 && rest
            == first_attr(s)->Some_0.1 + t,
{
    lemma_sign_from(s, '=', 0);
    let e = sign_from(s, '=', 0)->Some_0;
    lemma_sign_from(s, '"', e + 2);
    let q = sign_from(s, '"', e + 2)->Some_0;
    let u = s + t;
    assert forall|j: int| 0 <= j < e implies #[trigger] u[j] != '=' by {
        assert(u[j] == s[j]);
    }
    lemma_sign_at(u, '=', 0, e);
    assert forall|j: int| e + 2 <= j < q implies #[trigger] u[j] != '"' by {
        assert(u[j] == s[j]);
    }
    lemma_sign_at(u, '"', e + 2, q);
    assert(u.take(e) == s.take(e));
    assert(u.subrange(e + 2, q) == s.subrange(e + 2, q));
    assert(u.skip(q + 1) == s.skip(q + 1) + t);
}

/// Attributes behind others.
pub proof fn lemma_more_attrs(s: Seq<char>, t: Seq<char>)
    requires
        only_attrs(s),
    ensures
        attrs_in(s + t) == attrs_in(s) + attrs_in(t),
        only_attrs(s + t) == only_attrs(t),
    decreases s.len(),
{
    if s.len() == 0 {
        assert(s + t == t);
    } else if text::is_white(s[0]) {
        assert((s + t).skip(1) == s.skip(1) + t);
        lemma_more_attrs(s.skip(1), t);
    } else {
        let (a, rest) = first_attr(s)->Some_0;
        lemma_first_attr_of_more(s, t);
        lemma_more_attrs(rest, t);
        assert((rest + t).len() < (s + t).len());
    }
}

/// The first of some tags with the given name.
pub open spec fn tag_named(list: Seq<Seq<char>>, name: Seq<char>) -> Option<Seq<char>>
    decreases list.len(),
{
    if list.len() == 0 {
        None
    } else if tag_name(list[0]) == name {
        Some(list[0])
    } else {
        tag_named(list.skip(1), name)
    }
}

/// Whether a text has an element of the given name.
pub open spec fn has_element(s: Seq<char>, name: Seq<char>) -> bool {
    tag_named(tags(s), name) is Some
}

/// An attribute of the first element of the given name.
pub open spec fn element_attr(s: Seq<char>, name: Seq<char>, attribute: Seq<char>) -> Option<
    Seq<char>,
> {
    match tag_named(tags(s), name) {
        Some(t) => tag_attr(t, attribute),
        None => None,
    }
}

/// Whether a text can stand before the name of an element.
pub open spec fn plain_prefix(prefix: Seq<char>) -> bool {
    prefix.len() == 0 || plain_name(prefix)
}

/// Whether a text closes a tag, and nothing else.
pub open spec fn tag_rest(rest: Seq<char>) -> bool {
    &&& rest.len() > 0
    &&& ends_name(rest[0])
    &&& rest[rest.len() - 1] == '>'
    &&& forall|j: int| 0 <= j < rest.len() - 1 ==> #[trigger] rest[j] != '>'
}

/// A tag of a name under a prefix and what follows the name.
pub proof fn lemma_put_together(prefix: Seq<char>, name: Seq<char>, rest: Seq<char>)
    requires
        plain_prefix(prefix),
        plain_name(name),
        tag_rest(rest),
    ensures
        is_tag("<"@ + prefix + name + rest),
        tag_name("<"@ + prefix + name + rest) == prefix + name,
        tag_attrs("<"@ + prefix + name + rest) == attrs_in(rest),
{
    reveal_strlit("<");
    let full = prefix + name;
    let t = "<"@ + full + rest;
    assert("<"@ + prefix + name + rest == t);
    assert forall|j: int| 0 <= j < full.len() implies !ends_name(#[trigger] full[j]) && full[j]
        != '=' && full[j] != '"' && full[j] != '<' by {
        if j < prefix.len() {
            assert(full[j] == prefix[j]);
        } else {
            assert(full[j] == name[j - prefix.len()]);
        }
    }
    lemma_tag_parts(full, rest);
    assert forall|j: int| 0 <= j < t.len() - 1 implies #[trigger] t[j] != '>' by {
        if j == 0 {
        } else if j <= full.len() {
            assert(t[j] == full[j - 1]);
        } else {
            assert(t[j] == rest[j - 1 - full.len()]);
        }
    }
    assert(t[t.len() - 1] == rest[rest.len() - 1]);
}

/// A tag that closes an element has no name of its own.
pub proof fn lemma_end_tag(name: Seq<char>)
    requires
        plain_name(name),
    ensures
        is_tag("</"@ + name + ">"@),
        tag_name("</"@ + name + ">"@) == Seq::<char>::empty(),
{
    reveal_strlit("</");
    reveal_strlit(">");
    let t = "</"@ + name + ">"@;
    assert forall|j: int| 0 <= j < t.len() - 1 implies #[trigger] t[j] != '>' by {
        if j >= 2 {
            assert(t[j] == name[j - 2]);
        }
    }
    lemma_name_end(t, 1, 1);
    assert(t.subrange(1, 1) == Seq::<char>::empty());
}

pub proof fn lemma_tag_named(t: Seq<char>, rest: Seq<Seq<char>>, name: Seq<char>)
    ensures
        tag_named(seq![t] + rest, name) == if tag_name(t) == name {
            Some(t)
        } else {
            tag_named(rest, name)
        },
{
    assert((seq![t] + rest).skip(1) == rest);
}

/// Different names differ under one prefix too.
pub proof fn lemma_under_prefix(prefix: Seq<char>, a: Seq<char>, b: Seq<char>)
    ensures
        prefix + a == prefix + b <==> a == b,
        a.len() > 0 ==> prefix + a != Seq::<char>::empty(),
{
    if prefix + a == prefix + b {
        assert((prefix + a).skip(prefix.len() as int) == a);
        assert((prefix + b).skip(prefix.len() as int) == b);
    }
    assert((prefix + a).len() == prefix.len() + a.len());
}

/// Texts one behind the other.
pub open spec fn in_row(parts: Seq<Seq<char>>) -> Seq<char>
    decreases parts.len(),
{
    if parts.len() == 0 {
        Seq::empty()
    } else {
        parts[0] + in_row(parts.skip(1))
    }
}

pub open spec fn all_tags(parts: Seq<Seq<char>>) -> bool {
    forall|k: int| 0 <= k < parts.len() ==> is_tag(#[trigger] parts[k])
}

/// The tags of tags in a row are those tags.
pub proof fn lemma_tags_in_row(parts: Seq<Seq<char>>)
    requires
        all_tags(parts),
    ensures
        tags(in_row(parts)) == parts,
    decreases parts.len(),
{
    if parts.len() > 0 {
        assert(is_tag(parts[0]));
        assert forall|k: int| 0 <= k < parts.skip(1).len() implies is_tag(
            #[trigger] parts.skip(1)[k],
        ) by {
            assert(is_tag(parts[k + 1]));
        }
        lemma_tags_in_row(parts.skip(1));
        lemma_first_tag(parts[0], in_row(parts.skip(1)));
        assert(seq![parts[0]] + parts.skip(1) == parts);
    }
}

/// Texts in a row behind others, and the tag of a name among them.
pub proof fn lemma_rows_add_up(a: Seq<Seq<char>>, b: Seq<Seq<char>>, name: Seq<char>)
    ensures
        in_row(a + b) == in_row(a) + in_row(b),
        tag_named(a + b, name) == if tag_named(a, name) is Some {
            tag_named(a, name)
        } else {
            tag_named(b, name)
        },
        all_tags(a) && all_tags(b) ==> all_tags(a + b),
    decreases a.len(),
{
    if a.len() == 0 {
        assert(a + b == b);
        assert(in_row(a) + in_row(b) == in_row(b));
    } else {
        assert((a + b).skip(1) == a.skip(1) + b);
        assert((a + b)[0] == a[0]);
        lemma_rows_add_up(a.skip(1), b, name);
        assert(a[0] + (in_row(a.skip(1)) + in_row(b)) == a[0] + in_row(a.skip(1)) + in_row(b));
        assert forall|k: int| all_tags(a) && all_tags(b) && 0 <= k < (a + b).len() implies is_tag(
            #[trigger] (a + b)[k],
        ) by {
            if k < a.len() {
                assert(is_tag(a[k]));
            } else {
                assert(is_tag(b[k - a.len()]));
            }
        }
    }
}

/// A single text in a row, where it is wanted.
pub open spec fn maybe(wanted: bool, t: Seq<char>) -> Seq<Seq<char>> {
    if wanted {
        seq![t]
    } else {
        Seq::empty()
    }
}

pub proof fn lemma_maybe(wanted: bool, t: Seq<char>, name: Seq<char>)
    ensures
        in_row(maybe(wanted, t)) == if wanted {
            t
        } else {
            Seq::empty()
        },
        tag_named(maybe(wanted, t), name) == if wanted && tag_name(t) == name {
            Some(t)
        } else {
            None
        },
        is_tag(t) ==> all_tags(maybe(wanted, t)),
{
    if wanted {
        assert(seq![t].skip(1) == Seq::<Seq<char>>::empty());
        assert(in_row(seq![t].skip(1)) == Seq::<char>::empty());
        assert(t + Seq::<char>::empty() == t);
        assert(tag_named(seq![t].skip(1), name) is None);
        assert(tag_named(seq![t], name) == if tag_name(seq![t][0]) == name {
            Some(t)
        } else {
            None
        });
    }
}

/// Whether a text is a tag of a name, of attributes and space, and of what closes it.
pub open spec fn is_tag_of(t: Seq<char>, name: Seq<char>, inside: Seq<char>, closed: bool) -> bool {
    &&& plain_name(name)
    &&& inside.len() == 0 || text::is_white(inside[0])
    &&& only_attrs(inside)
    &&& t == "<"@ + name + inside + (if closed {
        "/>"@
    } else {
        ">"@
    })
}

/// Whether a text is a start tag.
pub open spec fn is_start_tag(t: Seq<char>) -> bool {
    exists|name: Seq<char>, inside: Seq<char>, closed: bool| is_tag_of(t, name, inside, closed)
}

pub proof fn lemma_tag_of(t: Seq<char>, name: Seq<char>, inside: Seq<char>, closed: bool)
    requires
        is_tag_of(t, name, inside, closed),
    ensures
        tag_name(t) == name,
        tag_attrs(t) == attrs_in(inside),
{
    let end = if closed {
        "/>"@
    } else {
        ">"@
    };
    reveal_strlit("/>");
    reveal_strlit(">");
    let rest = inside + end;
    assert("<"@ + name + inside + end == "<"@ + name + rest);
    lemma_tag_parts(name, rest);
    lemma_more_attrs(inside, end);
    lemma_closings_hold_no_attrs();
    assert(attrs_in(inside) + Seq::<(Seq<char>, Seq<char>)>::empty() == attrs_in(inside));
}

/// Attributes and space end with a quote or with space.
pub proof fn lemma_attrs_end(s: Seq<char>)
    requires
        only_attrs(s),
        s.len() > 0,
    ensures
        text::is_white(s[s.len() - 1]) || s[s.len() - 1] == '"',
    decreases s.len(),
{
    if text::is_white(s[0]) {
        if s.len() > 1 {
            lemma_attrs_end(s.skip(1));
            assert(s.skip(1)[s.len() - 2] == s[s.len() - 1]);
        }
    } else {
        lemma_sign_from(s, '=', 0);
        let e = sign_from(s, '=', 0)->Some_0;
        lemma_sign_from(s, '"', e + 2);
        let q = sign_from(s, '"', e + 2)->Some_0;
        let rest = s.skip(q + 1);
        if rest.len() > 0 {
            lemma_attrs_end(rest);
            assert(rest[rest.len() - 1] == s[s.len() - 1]);
        }
    }
}

proof fn lemma_trailing_white(s: Seq<char>)
    requires
        only_attrs(s),
        s.len() > 0,
        text::is_white(s[s.len() - 1]),
    ensures
        only_attrs(s.drop_last()),
        attrs_in(s.drop_last()) == attrs_in(s),
    decreases s.len(),
{
    let t = s.drop_last();
    if text::is_white(s[0]) {
        if s.len() == 1 {
            assert(t.len() == 0);
            assert(s.skip(1).len() == 0);
            assert(attrs_in(s.skip(1)) == attrs_in(t));
        } else {
            lemma_trailing_white(s.skip(1));
            assert(s.skip(1).drop_last() == t.skip(1));
        }
    } else {
        lemma_sign_from(s, '=', 0);
        let e = sign_from(s, '=', 0)->Some_0;
        lemma_sign_from(s, '"', e + 2);
        let q = sign_from(s, '"', e + 2)->Some_0;
        assert(q < s.len() - 1);
        let rest = s.skip(q + 1);
        assert forall|j: int| 0 <= j < e implies #[trigger] t[j] != '=' by {
            assert(t[j] == s[j]);
        }
        lemma_sign_at(t, '=', 0, e);
        assert forall|j: int| e + 2 <= j < q implies #[trigger] t[j] != '"' by {
            assert(t[j] == s[j]);
        }
        lemma_sign_at(t, '"', e + 2, q);
        assert(t.take(e) == s.take(e));
        assert(t.subrange(e + 2, q) == s.subrange(e + 2, q));
        assert(t.skip(q + 1) == rest.drop_last());
        assert(rest[rest.len() - 1] == s[s.len() - 1]);
        lemma_trailing_white(rest);
        let a = (s.take(e), unescaped(s.subrange(e + 2, q)));
        assert(first_attr(s) == Some((a, rest)));
        assert(first_attr(t) == Some((a, rest.drop_last())));
        assert(t[0] == s[0]);
        assert(attrs_in(s) == seq![a] + attrs_in(rest));
        assert(attrs_in(t) == seq![a] + attrs_in(rest.drop_last()));
    }
}

/// Space at the end of attributes does not matter.
pub proof fn lemma_trimmed_attrs(s: Seq<char>)
    requires
        only_attrs(s),
    ensures
        only_attrs(text::trim_end(s)),
        attrs_in(text::trim_end(s)) == attrs_in(s),
        s.len() > 0 && text::is_white(s[0]) ==> text::trim_end(s).len() == 0 || text::is_white(
            text::trim_end(s)[0],
        ),
    decreases s.len(),
{
    if s.len() > 0 && text::is_white(s.last()) {
        lemma_trailing_white(s);
        lemma_trimmed_attrs(s.drop_last());
    }
}

/// Attributes as they are written, each with a blank before it.
pub open spec fn attrs_text(list: Seq<(Seq<char>, Seq<char>)>) -> Seq<char>
    decreases list.len(),
{
    if list.len() == 0 {
        Seq::empty()
    } else {
        " "@ + list[0].0 + "=\""@ + escaped(list[0].1) + "\""@ + attrs_text(list.skip(1))
    }
}

pub open spec fn plain_names(list: Seq<(Seq<char>, Seq<char>)>) -> bool {
    forall|i: int| 0 <= i < list.len() ==> plain_name((#[trigger] list[i]).0)
}

pub proof fn lemma_attrs_text(list: Seq<(Seq<char>, Seq<char>)>, rest: Seq<char>)
    requires
        plain_names(list),
    ensures
        attrs_in(attrs_text(list) + rest) == list + attrs_in(rest),
        forall|j: int| 0 <= j < attrs_text(list).len() ==> #[trigger] attrs_text(list)[j] != '>',
        list.len() > 0 ==> attrs_text(list).len() > 0 && attrs_text(list)[0] == ' ',
    decreases list.len(),
{
    if list.len() == 0 {
        assert(attrs_text(list) + rest == rest);
    } else {
        let (name, value) = list[0];
        let more = attrs_text(list.skip(1));
        assert(plain_name(list[0].0));
        assert forall|i: int| 0 <= i < list.skip(1).len() implies plain_name(
            (#[trigger] list.skip(1)[i]).0,
        ) by {
            assert(list.skip(1)[i] == list[i + 1]);
        }
        lemma_attrs_text(list.skip(1), rest);
        lemma_written_attr(name, value, more + rest);
        let first = " "@ + name + "=\""@ + escaped(value) + "\""@;
        assert(attrs_text(list) + rest == first + (more + rest));
        assert(seq![list[0]] + (list.skip(1) + attrs_in(rest)) == list + attrs_in(rest));
        reveal_strlit(" ");
        reveal_strlit("=\"");
        reveal_strlit("\"");
        assert forall|j: int| 0 <= j < attrs_text(list).len() implies #[trigger] attrs_text(list)[j]
            != '>' by {
            let a = 1 + name.len();
            let b = a + 2;
            let c = b + escaped(value).len();
            if 1 <= j < a {
                assert(attrs_text(list)[j] == name[j - 1]);
            } else if b <= j < c {
                law_escaped_text_holds_no_markup(value, j - b);
                assert(attrs_text(list)[j] == escaped(value)[j - b]);
            } else if j > c {
                assert(attrs_text(list)[j] == more[j - c - 1]);
            }
        }
    }
}

/// A start tag as it is written: its name under a prefix, its attributes, and what closes it.
pub open spec fn written_tag(
    prefix: Seq<char>,
    name: Seq<char>,
    list: Seq<(Seq<char>, Seq<char>)>,
    end: Seq<char>,
) -> Seq<char> {
    "<"@ + prefix + name + attrs_text(list) + end
}

/// A written tag reads as its name and its attributes.
pub proof fn lemma_written_tag(
    prefix: Seq<char>,
    name: Seq<char>,
    list: Seq<(Seq<char>, Seq<char>)>,
    end: Seq<char>,
)
    requires
        plain_prefix(prefix),
        plain_name(name),
        plain_names(list),
        end == ">"@ || end == "/>"@ || end == " />"@,
    ensures
        is_tag(written_tag(prefix, name, list, end)),
        tag_name(written_tag(prefix, name, list, end)) == prefix + name,
        tag_attrs(written_tag(prefix, name, list, end)) == list,
{
    lemma_closings_hold_no_attrs();
    lemma_attrs_text(list, end);
    lemma_put_at_end(prefix, name, attrs_text(list), end);
    assert(list + Seq::<(Seq<char>, Seq<char>)>::empty() == list);
}

#[verifier::spinoff_prover]
proof fn lemma_put_at_end(prefix: Seq<char>, name: Seq<char>, inner: Seq<char>, end: Seq<char>)
    requires
        plain_prefix(prefix),
        plain_name(name),
        forall|j: int| 0 <= j < inner.len() ==> #[trigger] inner[j] != '>',
        inner.len() > 0 ==> inner[0] == ' ',
        end == ">"@ || end == "/>"@ || end == " />"@,
    ensures
        is_tag("<"@ + prefix + name + inner + end),
        tag_name("<"@ + prefix + name + inner + end) == prefix + name,
        tag_attrs("<"@ + prefix + name + inner + end) == attrs_in(inner + end),
{
    lemma_tag_end(inner, end);
    lemma_put_together(prefix, name, inner + end);
    lemma_one_by_one("<"@ + prefix + name, inner, end);
}

proof fn lemma_one_by_one(a: Seq<char>, b: Seq<char>, c: Seq<char>)
    ensures
        a + b + c == a + (b + c),
{
}

proof fn lemma_tag_end(inner: Seq<char>, end: Seq<char>)
    requires
        forall|j: int| 0 <= j < inner.len() ==> #[trigger] inner[j] != '>',
        inner.len() > 0 ==> inner[0] == ' ',
        end == ">"@ || end == "/>"@ || end == " />"@,
    ensures
        tag_rest(inner + end),
{
    reveal_strlit(">");
    reveal_strlit("/>");
    reveal_strlit(" />");
    let rest = inner + end;
    assert(rest[rest.len() - 1] == end[end.len() - 1]);
    if inner.len() > 0 {
        assert(rest[0] == inner[0]);
    } else {
        assert(rest[0] == end[0]);
    }
    assert forall|j: int| 0 <= j < rest.len() - 1 implies #[trigger] rest[j] != '>' by {
        if j < inner.len() {
            assert(rest[j] == inner[j]);
        } else {
            assert(rest[j] == end[j - inner.len()]);
        }
    }
}

/// Text without signs of markup is written as it is.
pub proof fn lemma_plain_text(t: Seq<char>)
    requires
        forall|j: int| 0 <= j < t.len() ==> escaped_char(#[trigger] t[j]) == seq![t[j]],
    ensures
        escaped(t) == t,
{
    let none = Seq::<char>::empty();
    lemma_escaped_is_five_swaps(none);
    lemma_escaped_behind_plain(t, none);
    assert(t + none == t);
    assert(escaped(none) == none) by {
        assert(five_swaps(none) == none);
    }
}

pub proof fn lemma_digits_are_plain(t: Seq<char>)
    requires
        text::all_digits(t),
    ensures
        escaped(t) == t,
{
    assert forall|j: int| 0 <= j < t.len() implies escaped_char(#[trigger] t[j]) == seq![t[j]] by {
        assert(text::is_digit(t[j]));
    }
    lemma_plain_text(t);
}

/// The first tag of a text that begins with it, and those behind it.
pub proof fn lemma_begins_with(t: Seq<char>, rest: Seq<char>, name: Seq<char>)
    requires
        is_tag(t),
    ensures
        tags(t + rest) == seq![t] + tags(rest),
        tag_named(tags(t + rest), name) == if tag_name(t) == name {
            Some(t)
        } else {
            tag_named(tags(rest), name)
        },
{
    lemma_first_tag(t, rest);
    lemma_tag_named(t, tags(rest), name);
}

// ----- Text read as it stands -----

/// The tags of a text, each with the text that follows it up to the next one.
pub open spec fn marked(s: Seq<char>) -> Seq<(Seq<char>, Seq<char>)>
    decreases s.len(),
{
    if s.len() == 0 {
        Seq::empty()
    } else if s[0] != '<' {
        marked(s.skip(1))
    } else {
        match sign_from(s, '>', 0) {
            Some(e) => if 0 <= e < s.len() {
                let rest = s.skip(e + 1);
                let n = match sign_from(rest, '<', 0) {
                    Some(n) => n,
                    None => rest.len() as int,
                };
                seq![(s.take(e + 1), unescaped(rest.take(n)))] + marked(rest)
            } else {
                Seq::empty()
            },
            None => Seq::empty(),
        }
    }
}

/// The text behind the first tag of the given name.
pub open spec fn text_behind(list: Seq<(Seq<char>, Seq<char>)>, name: Seq<char>) -> Option<Seq<char>>
    decreases list.len(),
{
    if list.len() == 0 {
        None
    } else if tag_name(list[0].0) == name {
        Some(list[0].1)
    } else {
        text_behind(list.skip(1), name)
    }
}

/// The text of the first element of the given name.
pub open spec fn element_text(s: Seq<char>, name: Seq<char>) -> Option<Seq<char>> {
    text_behind(marked(s), name)
}

proof fn lemma_marked_text(t: Seq<char>, rest: Seq<char>)
    requires
        forall|j: int| 0 <= j < t.len() ==> #[trigger] t[j] != '<',
    ensures
        marked(t + rest) == marked(rest),
    decreases t.len(),
{
    if t.len() == 0 {
        assert(t + rest == rest);
    } else {
        assert(t[0] != '<');
        assert((t + rest).skip(1) == t.skip(1) + rest);
        assert forall|j: int| 0 <= j < t.skip(1).len() implies #[trigger] t.skip(1)[j] != '<' by {
            assert(t[j + 1] != '<');
        }
        lemma_marked_text(t.skip(1), rest);
    }
}

/// A tag with escaped text behind it, and what follows.
pub proof fn lemma_marked(t: Seq<char>, value: Seq<char>, rest: Seq<char>, name: Seq<char>)
    requires
        is_tag(t),
        rest.len() == 0 || rest[0] == '<',
    ensures
        marked(t + escaped(value) + rest) == seq![(t, value)] + marked(rest),
        text_behind(marked(t + escaped(value) + rest), name) == if tag_name(t) == name {
            Some(value)
        } else {
            text_behind(marked(rest), name)
        },
{
    let inner = escaped(value);
    let s = t + inner + rest;
    let e = t.len() - 1;
    assert forall|j: int| 0 <= j < e implies #[trigger] s[j] != '>' by {
        assert(s[j] == t[j]);
    }
    lemma_sign_at(s, '>', 0, e);
    assert(s.take(e + 1) == t);
    let behind = s.skip(e + 1);
    assert(behind == inner + rest);
    assert forall|j: int| 0 <= j < inner.len() implies #[trigger] inner[j] != '<' by {
        law_escaped_text_holds_no_markup(value, j);
    }
    assert forall|j: int| 0 <= j < inner.len() implies #[trigger] behind[j] != '<' by {
        assert(behind[j] == inner[j]);
    }
    lemma_sign_from(behind, '<', 0);
    if rest.len() > 0 {
        assert(behind[inner.len() as int] == rest[0]);
        lemma_sign_at(behind, '<', 0, inner.len() as int);
        assert(behind.take(inner.len() as int) == inner);
    } else {
        assert(rest == Seq::<char>::empty());
        assert(behind == inner);
        assert(behind.take(behind.len() as int) == inner);
    }
    law_escaped_text_reads_back(value);
    lemma_marked_text(inner, rest);
    let all = seq![(t, value)] + marked(rest);
    assert(all.skip(1) == marked(rest));
}

/// A tag with another one right behind it.
pub proof fn lemma_marked_tag(t: Seq<char>, rest: Seq<char>, name: Seq<char>)
    requires
        is_tag(t),
        rest.len() == 0 || rest[0] == '<',
        tag_name(t) != name,
    ensures
        text_behind(marked(t + rest), name) == text_behind(marked(rest), name),
{
    let none = Seq::<char>::empty();
    lemma_escaped_is_five_swaps(none);
    assert(escaped(none) == none) by {
        assert(five_swaps(none) == none);
    }
    assert(t + escaped(none) + rest == t + rest);
    lemma_marked(t, none, rest, name);
}

} // verus!
