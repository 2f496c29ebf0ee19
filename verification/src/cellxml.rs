//! Writing cells and shared texts into the documents that hold them.

use crate::coord;
use crate::coord::{Key, ShadowError};
use crate::entries;
use crate::numbers;
use crate::objects;
use crate::package;
use crate::package::Fallible;
use crate::pattern;
use crate::splice;
use crate::splice::Splices;
use crate::text;
use crate::xml;
use crate::xml::{NodeModel, Nodes, XmlNode};
use vstd::prelude::*;
use vstd::string::*;

verus! {

// ----- Text inside an element -----

/// The share of a text that goes into one of several runs, and what remains: as many
/// characters as the run had, and all of them in the last run.
pub open spec fn run_share(remaining: Seq<char>, held: nat, last: bool) -> (Seq<char>, Seq<char>) {
    let n: int = if last || remaining.len() <= held {
        remaining.len() as int
    } else {
        held as int
    };
    (text::slice(remaining, 0, n), text::slice(remaining, n, remaining.len() as int))
}

fn share_run(remaining: &str, held: usize, last: bool) -> (r: (String, String))
    ensures
        (r.0@, r.1@) == run_share(remaining@, held as nat, last),
{
    let all = text::chars_of(remaining);
    let n = if last || all.len() <= held {
        all.len()
    } else {
        held
    };
    (text::piece(&all, 0, n), text::piece(&all, n, all.len()))
}

/// What has been written, up to where the document has been copied, and what remains
/// of the new text after the first `n` runs.
pub open spec fn runs_filled(
    s: Seq<char>,
    nodes: Nodes,
    runs: Seq<int>,
    start: usize,
    value: Seq<char>,
    n: int,
) -> Option<(Seq<char>, usize, Seq<char>)>
    decreases n,
{
    if n <= 0 {
        Some((Seq::empty(), start, value))
    } else {
        match runs_filled(s, nodes, runs, start, value, n - 1) {
            None => None,
            Some((out, cursor, remaining)) => match xml::child(nodes, runs[n - 1], "t"@) {
                None => None,
                Some(t) => {
                    let share = run_share(
                        remaining,
                        xml::text_or_empty(nodes[t]).len(),
                        n == runs.len(),
                    );
                    match splice::refilled(splice::source(s, nodes[t]), xml::escaped(share.0)) {
                        None => None,
                        Some(filled) => Some(
                            (
                                out + text::slice(s, cursor as int, nodes[t].start as int) + filled,
                                nodes[t].end,
                                share.1,
                            ),
                        ),
                    }
                },
            },
        }
    }
}

/// No character of a text is lost between runs: each share and what remains make up what was
/// there, and the last run leaves nothing.
pub proof fn law_runs_take_the_whole_text(
    s: Seq<char>,
    nodes: Nodes,
    runs: Seq<int>,
    start: usize,
    value: Seq<char>,
    held: nat,
    last: bool,
)
    ensures
        run_share(value, held, last).0 + run_share(value, held, last).1 == value,
        runs.len() > 0 ==> (runs_filled(s, nodes, runs, start, value, runs.len() as int) matches Some(
            done,
        ) ==> done.2.len() == 0),
{
    let share = run_share(value, held, last);
    assert(share.0 + share.1 == value);
}

fn fill_runs(
    s: &str,
    nodes: &Vec<XmlNode>,
    runs: &Vec<usize>,
    start: usize,
    value: &str,
    n: usize,
) -> (r: Option<(String, usize, String)>)
    requires
        n <= runs.len(),
        forall|k: int| 0 <= k < runs@.len() ==> #[trigger] runs@[k] < nodes.len(),
    ensures
        r.deep_view() == runs_filled(
            s@,
            nodes.deep_view(),
            xml::ints(runs@),
            start,
            value@,
            n as int,
        ),
    decreases n,
{
    if n == 0 {
        return Some((String::new(), start, value.to_owned()));
    }
    let (mut out, cursor, remaining) = match fill_runs(s, nodes, runs, start, value, n - 1) {
        Some(done) => done,
        None => return None,
    };
    assert(xml::ints(runs@)[n - 1] == runs@[n - 1]);
    let t = match xml::child_named(nodes, runs[n - 1], "t") {
        Some(t) => t,
        None => return None,
    };
    assert(nodes.deep_view()[t as int] == nodes@[t as int].deep_view());
    let held = text::length(&xml::node_text(&nodes[t]));
    let (share, rest) = share_run(&remaining, held, n == runs.len());
    match splice::refill(&splice::source_of(s, &nodes[t]), &xml::xml_escape(&share)) {
        Some(filled) => {
            out.append(&text::slice_of(s, cursor, nodes[t].start));
            out.append(&filled);
            Some((out, nodes[t].end, rest))
        },
        None => None,
    }
}

/// An element with the text that it shows replaced. Where it has runs, each keeps its
/// own form and takes as many characters as it had; else its first text element takes
/// all. `None` where there is no text to replace.
pub open spec fn text_payload(s: Seq<char>, nodes: Nodes, i: int, value: Seq<char>) -> Option<
    Seq<char>,
> {
    let runs = package::with_name(nodes, xml::children(nodes, i), "r"@);
    if runs.len() > 0 {
        match runs_filled(s, nodes, runs, nodes[i].start, value, runs.len() as int) {
            Some((out, cursor, _)) => Some(
                out + text::slice(s, cursor as int, nodes[i].end as int),
            ),
            None => None,
        }
    } else {
        match xml::first_of(xml::named_in(nodes, i, "t"@)) {
            None => None,
            Some(t) => match splice::refilled(splice::source(s, nodes[t]), xml::escaped(value)) {
                None => None,
                Some(filled) => Some(
                    text::slice(s, nodes[i].start as int, nodes[t].start as int) + filled
                        + text::slice(s, nodes[t].end as int, nodes[i].end as int),
                ),
            },
        }
    }
}

pub fn update_text_container_payload(s: &str, nodes: &Vec<XmlNode>, i: usize, value: &str) -> (r:
    Option<String>)
    requires
        i < nodes.len(),
    ensures
        r.deep_view() == text_payload(s@, nodes.deep_view(), i as int, value@),
{
    assert(nodes.deep_view()[i as int] == nodes@[i as int].deep_view());
    let runs = package::children_named(nodes, i, "r");
    assert(xml::ints(runs@).len() == runs.len());
    if runs.len() > 0 {
        match fill_runs(s, nodes, &runs, nodes[i].start, value, runs.len()) {
            Some(done) => {
                let mut out = done.0;
                out.append(&text::slice_of(s, done.1, nodes[i].end));
                Some(out)
            },
            None => None,
        }
    } else {
        match xml::first_named_in(nodes, i, "t") {
            Some(t) => {
                assert(nodes.deep_view()[t as int] == nodes@[t as int].deep_view());
                match splice::refill(&splice::source_of(s, &nodes[t]), &xml::xml_escape(value)) {
                    Some(filled) => {
                        let mut out = text::slice_of(s, nodes[i].start, nodes[t].start);
                        out.append(&filled);
                        out.append(&text::slice_of(s, nodes[t].end, nodes[i].end));
                        Some(out)
                    },
                    None => None,
                }
            },
            None => None,
        }
    }
}

// ----- What a cell holds -----

/// What is written into a cell.
#[verifier::ext_equal]
pub struct CellWrite<S = String> {
    pub value: S,
    pub formula: Option<S>,
    pub shared: Option<usize>,
    pub inline: bool,
    pub style: Option<u32>,
}

pub type CellWriteModel = CellWrite<Seq<char>>;

impl DeepView for CellWrite<String> {
    type V = CellWriteModel;

    open spec fn deep_view(&self) -> CellWriteModel {
        CellWrite {
            value: self.value@,
            formula: self.formula.deep_view(),
            shared: self.shared,
            inline: self.inline,
            style: self.style,
        }
    }
}

/// A start tag with the type of its cell set, or without a type.
pub open spec fn with_type(tag: Seq<char>, kind: Option<Seq<char>>) -> Seq<char> {
    let bare = pattern::substituted("\\s+t=\"[^\"]*\""@, tag, ""@);
    match kind {
        Some(t) => text::drop_trailing(bare, ">"@) + " t=\""@ + t + "\">"@,
        None => bare,
    }
}

fn with_cell_type_attr(start_tag: &str, kind: Option<&str>) -> (r: String)
    ensures
        r@ == with_type(
            start_tag@,
            match kind {
                Some(t) => Some(t@),
                None => None,
            },
        ),
{
    let bare = pattern::substitute("\\s+t=\"[^\"]*\"", start_tag, "");
    match kind {
        Some(t) => {
            let mut out = text::without_trailing(&bare, ">");
            out.append(" t=\"");
            out.append(t);
            out.append("\">");
            out
        },
        None => bare,
    }
}

/// The start tag of a cell with the type of what it is to hold.
pub open spec fn typed_tag(tag: Seq<char>, w: CellWriteModel) -> Seq<char> {
    if w.shared is Some {
        with_type(tag, Some("s"@))
    } else if w.inline {
        with_type(tag, Some("inlineStr"@))
    } else if w.formula is Some || numbers::is_number(w.value) {
        with_type(tag, None)
    } else {
        with_type(tag, Some("inlineStr"@))
    }
}

pub fn typed_cell_start_tag(start_tag: &str, w: &CellWrite) -> (r: String)
    ensures
        r@ == typed_tag(start_tag@, w.deep_view()),
{
    if w.shared.is_some() {
        with_cell_type_attr(start_tag, Some("s"))
    } else if w.inline {
        with_cell_type_attr(start_tag, Some("inlineStr"))
    } else if w.formula.is_some() || numbers::number(&w.value) {
        with_cell_type_attr(start_tag, None)
    } else {
        with_cell_type_attr(start_tag, Some("inlineStr"))
    }
}

pub open spec fn with_style(tag: Seq<char>, style: Option<u32>) -> Seq<char> {
    match style {
        Some(id) => splice::with_attr(tag, "s"@, text::decimal(id as nat)),
        None => tag,
    }
}

pub fn with_cell_style_attr(start_tag: &str, style_id: Option<u32>) -> (r: String)
    ensures
        r@ == with_style(start_tag@, style_id),
{
    match style_id {
        Some(id) => splice::with_xml_attr(start_tag, "s", &text::number_text(id as u64)),
        None => start_tag.to_owned(),
    }
}

/// An element of the given prefix and name around a text.
pub open spec fn wrapped(prefix: Seq<char>, name: Seq<char>, inner: Seq<char>) -> Seq<char> {
    "<"@ + prefix + name + ">"@ + inner + "</"@ + prefix + name + ">"@
}

pub fn wrap(prefix: &str, name: &str, inner: &str) -> (r: String)
    ensures
        r@ == wrapped(prefix@, name@, inner@),
{
    let mut out = "<".to_owned();
    out.append(prefix);
    out.append(name);
    out.append(">");
    out.append(inner);
    out.append("</");
    out.append(prefix);
    out.append(name);
    out.append(">");
    out
}

/// What stands in a cell: the place of a shared text, a formula with its value, a
/// number, or a text of the cell's own.
pub open spec fn payload(prefix: Seq<char>, w: CellWriteModel, rich: Option<Seq<char>>) -> Seq<char> {
    match (w.shared, w.formula) {
        (Some(index), _) => wrapped(prefix, "v"@, text::decimal(index as nat)),
        (None, Some(formula)) => wrapped(
            prefix,
            "f"@,
            xml::escaped(text::drop_leading(formula, '=')),
        ) + wrapped(prefix, "v"@, xml::escaped(w.value)),
        (None, None) => if numbers::is_number(w.value) && !w.inline {
            wrapped(prefix, "v"@, xml::escaped(w.value))
        } else {
            match rich {
                Some(t) => t,
                None => wrapped(prefix, "is"@, wrapped(prefix, "t"@, xml::escaped(w.value))),
            }
        },
    }
}

pub fn cell_value_payload(prefix: &str, w: &CellWrite, rich: &Option<String>) -> (r: String)
    ensures
        r@ == payload(prefix@, w.deep_view(), rich.deep_view()),
{
    match w.shared {
        Some(index) => return wrap(prefix, "v", &text::size_text(index)),
        None => {},
    }
    match &w.formula {
        Some(formula) => {
            let mut out = wrap(
                prefix,
                "f",
                &xml::xml_escape(&text::without_leading(formula, '=')),
            );
            out.append(&wrap(prefix, "v", &xml::xml_escape(&w.value)));
            return out;
        },
        None => {},
    }
    if numbers::number(&w.value) && !w.inline {
        return wrap(prefix, "v", &xml::xml_escape(&w.value));
    }
    match rich {
        Some(t) => t.clone(),
        None => wrap(prefix, "is", &wrap(prefix, "t", &xml::xml_escape(&w.value))),
    }
}

/// A new cell.
pub open spec fn new_cell(prefix: Seq<char>, cell_ref: Seq<char>, w: CellWriteModel) -> Seq<char> {
    let plain = CellWrite { shared: None, inline: false, ..w };
    typed_tag(with_style("<"@ + prefix + "c r=\""@ + cell_ref + "\">"@, w.style), plain) + payload(
        prefix,
        plain,
        None,
    ) + ("</"@ + prefix + "c>"@)
}

pub fn inserted_cell_xml(prefix: &str, cell_ref: &str, w: &CellWrite) -> (r: String)
    ensures
        r@ == new_cell(prefix@, cell_ref@, w.deep_view()),
{
    let mut tag = "<".to_owned();
    tag.append(prefix);
    tag.append("c r=\"");
    tag.append(cell_ref);
    tag.append("\">");
    let plain = CellWrite {
        value: w.value.clone(),
        formula: text::copy_option(&w.formula),
        shared: None,
        inline: false,
        style: w.style,
    };
    let mut end = "</".to_owned();
    end.append(prefix);
    end.append("c>");
    let mut out = typed_cell_start_tag(&with_cell_style_attr(&tag, w.style), &plain);
    out.append(&cell_value_payload(prefix, &plain, &None));
    out.append(&end);
    out
}

// ----- A cell that is there -----

pub open spec fn is_value_child(name: Seq<char>) -> bool {
    name == "f"@ || name == "v"@ || name == "is"@
}

/// The content of a cell with its value replaced: other elements stay where they are,
/// and the value stands where the first of its elements stood.
pub open spec fn cell_body(s: Seq<char>, nodes: Nodes, list: Seq<int>, value: Seq<char>) -> (
    Seq<char>,
    bool,
)
    decreases list.len(),
{
    if list.len() == 0 {
        (Seq::empty(), false)
    } else {
        let done = cell_body(s, nodes, list.drop_last(), value);
        let n = nodes[list.last()];
        if !n.element {
            done
        } else if is_value_child(n.name) {
            if done.1 {
                done
            } else {
                (done.0 + value, true)
            }
        } else {
            (done.0 + splice::source(s, n), done.1)
        }
    }
}

fn cell_body_of(s: &str, nodes: &Vec<XmlNode>, i: usize, value: &str) -> (r: (String, bool))
    requires
        i < nodes.len(),
    ensures
        (r.0@, r.1) == cell_body(
            s@,
            nodes.deep_view(),
            xml::children(nodes.deep_view(), i as int),
            value@,
        ),
{
    let ghost all = nodes.deep_view();
    let list = xml::children_of(nodes, i);
    let ghost model = xml::ints(list@);
    let mut out = String::new();
    let mut written = false;
    let mut n: usize = 0;
    assert(model.take(0).len() == 0);
    while n < list.len()
        invariant
            n <= list.len(),
            all == nodes.deep_view(),
            model == xml::ints(list@),
            forall|k: int| 0 <= k < list@.len() ==> i < #[trigger] list@[k] < nodes.len(),
            (out@, written) == cell_body(s@, all, model.take(n as int), value@),
        decreases list.len() - n,
    {
        let at = list[n];
        assert(model.take(n + 1).drop_last() == model.take(n as int));
        assert(model.take(n + 1).last() == at as int);
        assert(all[at as int] == nodes@[at as int].deep_view());
        if nodes[at].element {
            let name = &nodes[at].name;
            if text::same(name, "f") || text::same(name, "v") || text::same(name, "is") {
                if !written {
                    out.append(value);
                    written = true;
                }
            } else {
                out.append(&splice::source_of(s, &nodes[at]));
            }
        }
        n = n + 1;
    }
    assert(model.take(model.len() as int) == model);
    (out, written)
}

/// The start tag of a cell, open.
pub open spec fn cell_tag(tag: Seq<char>) -> Seq<char> {
    if text::ends(tag, "/>"@) {
        text::trim_end(text::drop_trailing(tag, "/>"@)) + ">"@
    } else {
        tag
    }
}

pub fn normalize_cell_start_tag(start_tag: &str) -> (r: String)
    ensures
        r@ == cell_tag(start_tag@),
{
    if text::ends_with(start_tag, "/>") {
        let mut out = text::trimmed_end(&text::without_trailing(start_tag, "/>"));
        out.append(">");
        out
    } else {
        start_tag.to_owned()
    }
}

/// The text of its own that a cell keeps the form of.
pub open spec fn rich_payload(s: Seq<char>, nodes: Nodes, i: int, w: CellWriteModel) -> Option<
    Seq<char>,
> {
    if w.formula is None && w.shared is None && !numbers::is_number(w.value) {
        match xml::child(nodes, i, "is"@) {
            Some(k) => text_payload(s, nodes, k, w.value),
            None => None,
        }
    } else {
        None
    }
}

fn rich_inline_string_payload(s: &str, nodes: &Vec<XmlNode>, i: usize, w: &CellWrite) -> (r: Option<
    String,
>)
    requires
        i < nodes.len(),
    ensures
        r.deep_view() == rich_payload(s@, nodes.deep_view(), i as int, w.deep_view()),
{
    if w.formula.is_none() && w.shared.is_none() && !numbers::number(&w.value) {
        match xml::child_named(nodes, i, "is") {
            Some(k) => update_text_container_payload(s, nodes, k, &w.value),
            None => None,
        }
    } else {
        None
    }
}

/// The cell of node `i` with what it holds replaced.
pub open spec fn rewritten_cell(
    s: Seq<char>,
    nodes: Nodes,
    i: int,
    tag: Seq<char>,
    w: CellWriteModel,
) -> Seq<char> {
    let prefix = splice::tag_prefix(tag, "c"@);
    let end = match splice::end_tag(splice::source(s, nodes[i])) {
        Some(t) => t,
        None => "</"@ + prefix + "c>"@,
    };
    let value = payload(prefix, w, rich_payload(s, nodes, i, w));
    let body = cell_body(s, nodes, xml::children(nodes, i), value);
    with_style(typed_tag(cell_tag(tag), w), w.style) + (if body.1 {
        body.0
    } else {
        value + body.0
    }) + end
}

pub fn build_existing_cell_xml(s: &str, nodes: &Vec<XmlNode>, i: usize, tag: &str, w: &CellWrite) -> (r:
    String)
    requires
        i < nodes.len(),
    ensures
        r@ == rewritten_cell(s@, nodes.deep_view(), i as int, tag@, w.deep_view()),
{
    assert(nodes.deep_view()[i as int] == nodes@[i as int].deep_view());
    let prefix = splice::element_tag_prefix(tag, "c");
    let end = match splice::end_tag_of(&splice::source_of(s, &nodes[i])) {
        Some(t) => t,
        None => {
            let mut t = "</".to_owned();
            t.append(&prefix);
            t.append("c>");
            t
        },
    };
    let rich = rich_inline_string_payload(s, nodes, i, w);
    let value = cell_value_payload(&prefix, w, &rich);
    let (body, written) = cell_body_of(s, nodes, i, &value);
    let content = if written {
        body
    } else {
        let mut t = value;
        t.append(&body);
        t
    };
    let mut out = with_cell_style_attr(
        &typed_cell_start_tag(&normalize_cell_start_tag(tag), w),
        w.style,
    );
    out.append(&content);
    out.append(&end);
    out
}

// ----- A cell that is not there yet -----

/// The first of the given nodes that stands for a row of that number.
pub open spec fn row_numbered(nodes: Nodes, list: Seq<int>, row: usize, n: int) -> Option<int>
    decreases list.len() - n,
{
    if n < 0 || n >= list.len() {
        None
    } else if nodes[list[n]].name == "row"@ && row_number(nodes[list[n]]) == Some(row) {
        Some(list[n])
    } else {
        row_numbered(nodes, list, row, n + 1)
    }
}

pub open spec fn row_number(n: NodeModel) -> Option<usize> {
    match xml::attr(n, "r"@) {
        Some(t) => text::parsed_size(t),
        None => None,
    }
}

pub fn number_of_row(n: &XmlNode) -> (r: Option<usize>)
    ensures
        r == row_number(n.deep_view()),
{
    match xml::attribute(n, "r") {
        Some(t) => text::parse_size(&t),
        None => None,
    }
}

fn find_row(nodes: &Vec<XmlNode>, list: &Vec<usize>, row: usize) -> (r: Option<usize>)
    requires
        forall|k: int| 0 <= k < list@.len() ==> #[trigger] list@[k] < nodes.len(),
    ensures
        text::pos(r) == row_numbered(nodes.deep_view(), xml::ints(list@), row, 0),
        r matches Some(k) ==> k < nodes.len(),
{
    let ghost all = nodes.deep_view();
    let ghost model = xml::ints(list@);
    let mut n: usize = 0;
    while n < list.len()
        invariant
            n <= list.len(),
            all == nodes.deep_view(),
            model == xml::ints(list@),
            forall|k: int| 0 <= k < list@.len() ==> #[trigger] list@[k] < nodes.len(),
            row_numbered(all, model, row, 0) == row_numbered(all, model, row, n as int),
        decreases list.len() - n,
    {
        let at = list[n];
        assert(model[n as int] == at as int);
        assert(all[at as int] == nodes@[at as int].deep_view());
        if text::same(&nodes[at].name, "row") && number_of_row(&nodes[at]) == Some(row) {
            return Some(at);
        }
        n = n + 1;
    }
    None
}

/// Where the first row behind the given one begins.
pub open spec fn row_behind(nodes: Nodes, list: Seq<int>, row: usize, n: int) -> Option<int>
    decreases list.len() - n,
{
    if n < 0 || n >= list.len() {
        None
    } else if nodes[list[n]].name == "row"@ && (row_number(nodes[list[n]]) matches Some(k) && k
        > row) {
        Some(nodes[list[n]].start as int)
    } else {
        row_behind(nodes, list, row, n + 1)
    }
}

fn find_row_behind(nodes: &Vec<XmlNode>, list: &Vec<usize>, row: usize) -> (r: Option<usize>)
    requires
        forall|k: int| 0 <= k < list@.len() ==> #[trigger] list@[k] < nodes.len(),
    ensures
        text::pos(r) == row_behind(nodes.deep_view(), xml::ints(list@), row, 0),
{
    let ghost all = nodes.deep_view();
    let ghost model = xml::ints(list@);
    let mut n: usize = 0;
    while n < list.len()
        invariant
            n <= list.len(),
            all == nodes.deep_view(),
            model == xml::ints(list@),
            forall|k: int| 0 <= k < list@.len() ==> #[trigger] list@[k] < nodes.len(),
            row_behind(all, model, row, 0) == row_behind(all, model, row, n as int),
        decreases list.len() - n,
    {
        let at = list[n];
        assert(model[n as int] == at as int);
        assert(all[at as int] == nodes@[at as int].deep_view());
        if text::same(&nodes[at].name, "row") {
            match number_of_row(&nodes[at]) {
                Some(k) => if k > row {
                    return Some(nodes[at].start);
                },
                None => {},
            }
        }
        n = n + 1;
    }
    None
}

pub open spec fn cell_column(n: NodeModel) -> Option<usize> {
    match xml::attr(n, "r"@) {
        Some(t) => match coord::a1(t) {
            Some((col, _)) => Some(col),
            None => None,
        },
        None => None,
    }
}

fn column_of_cell(n: &XmlNode) -> (r: Option<usize>)
    ensures
        r == cell_column(n.deep_view()),
{
    match xml::attribute(n, "r") {
        Some(t) => match coord::parse_a1(&t) {
            Some((col, _)) => Some(col),
            None => None,
        },
        None => None,
    }
}

/// Where the first cell behind the given column begins.
pub open spec fn cell_behind(nodes: Nodes, list: Seq<int>, col: usize, n: int) -> Option<int>
    decreases list.len() - n,
{
    if n < 0 || n >= list.len() {
        None
    } else if nodes[list[n]].name == "c"@ && (cell_column(nodes[list[n]]) matches Some(k) && k
        > col) {
        Some(nodes[list[n]].start as int)
    } else {
        cell_behind(nodes, list, col, n + 1)
    }
}

fn find_cell_behind(nodes: &Vec<XmlNode>, list: &Vec<usize>, col: usize) -> (r: Option<usize>)
    requires
        forall|k: int| 0 <= k < list@.len() ==> #[trigger] list@[k] < nodes.len(),
    ensures
        text::pos(r) == cell_behind(nodes.deep_view(), xml::ints(list@), col, 0),
{
    let ghost all = nodes.deep_view();
    let ghost model = xml::ints(list@);
    let mut n: usize = 0;
    while n < list.len()
        invariant
            n <= list.len(),
            all == nodes.deep_view(),
            model == xml::ints(list@),
            forall|k: int| 0 <= k < list@.len() ==> #[trigger] list@[k] < nodes.len(),
            cell_behind(all, model, col, 0) == cell_behind(all, model, col, n as int),
        decreases list.len() - n,
    {
        let at = list[n];
        assert(model[n as int] == at as int);
        assert(all[at as int] == nodes@[at as int].deep_view());
        if text::same(&nodes[at].name, "c") {
            match column_of_cell(&nodes[at]) {
                Some(k) => if k > col {
                    return Some(nodes[at].start);
                },
                None => {},
            }
        }
        n = n + 1;
    }
    None
}

/// A row with a cell put in, in order of the columns.
pub open spec fn row_with_cell(s: Seq<char>, nodes: Nodes, i: int, col: usize, cell: Seq<char>) -> Fallible<
    Seq<char>,
> {
    let at = match cell_behind(nodes, xml::children(nodes, i), col, 0) {
        Some(k) => Some(k),
        None => splice::closing_start(s, nodes[i], "row"@),
    };
    match at {
        Some(k) => Ok(splice::inserted(s, k, cell)),
        None => Err(coord::value_error("xml_patch_miss: row closing tag not found"@)),
    }
}

pub fn insert_cell_into_row(s: &str, nodes: &Vec<XmlNode>, i: usize, col: usize, cell_xml: &str) -> (r:
    Result<String, ShadowError>)
    requires
        i < nodes.len(),
    ensures
        coord::outcome(r) == row_with_cell(s@, nodes.deep_view(), i as int, col, cell_xml@),
{
    assert(nodes.deep_view()[i as int] == nodes@[i as int].deep_view());
    let list = xml::children_of(nodes, i);
    let at = match find_cell_behind(nodes, &list, col) {
        Some(k) => Some(k),
        None => splice::closing_tag_start(s, &nodes[i], "row"),
    };
    match at {
        Some(k) => Ok(splice::insert_at_index(s, k, cell_xml)),
        None => Err(coord::refuse("xml_patch_miss: row closing tag not found")),
    }
}

/// A sheet with a cell put in that it did not have.
pub open spec fn with_new_cell(
    s: Seq<char>,
    nodes: Nodes,
    cell_ref: Seq<char>,
    row: usize,
    col: usize,
    w: CellWriteModel,
) -> Fallible<Seq<char>> {
    match xml::first_of(xml::named(nodes, "sheetData"@)) {
        None => Err(coord::value_error("xml_patch_miss: worksheet XML has no sheetData node"@)),
        Some(data) => {
            let prefix = splice::node_prefix(s, nodes[data], "sheetData"@);
            let cell = new_cell(prefix, cell_ref, w);
            let list = xml::children(nodes, data);
            match row_numbered(nodes, list, row, 0) {
                Some(i) => row_with_cell(s, nodes, i, col, cell),
                None => {
                    let at = match row_behind(nodes, list, row, 0) {
                        Some(k) => Some(k),
                        None => splice::closing_start(s, nodes[data], "sheetData"@),
                    };
                    match at {
                        Some(k) => Ok(
                            splice::inserted(
                                s,
                                k,
                                "<"@ + prefix + "row r=\""@ + text::decimal(row as nat) + "\">"@
                                    + cell + "</"@ + prefix + "row>"@,
                            ),
                        ),
                        None => Err(
                            coord::value_error("xml_patch_miss: sheetData closing tag not found"@),
                        ),
                    }
                },
            }
        },
    }
}

pub fn patch_missing_cell(
    s: &str,
    nodes: &Vec<XmlNode>,
    cell_ref: &str,
    row: usize,
    col: usize,
    w: &CellWrite,
) -> (r: Result<String, ShadowError>)
    ensures
        coord::outcome(r) == with_new_cell(
            s@,
            nodes.deep_view(),
            cell_ref@,
            row,
            col,
            w.deep_view(),
        ),
{
    let data = match xml::first_named(nodes, "sheetData") {
        Some(data) => data,
        None => return Err(
            coord::refuse("xml_patch_miss: worksheet XML has no sheetData node"),
        ),
    };
    assert(nodes.deep_view()[data as int] == nodes@[data as int].deep_view());
    let prefix = splice::prefix_of_node(s, &nodes[data], "sheetData");
    let cell = inserted_cell_xml(&prefix, cell_ref, w);
    let list = xml::children_of(nodes, data);
    match find_row(nodes, &list, row) {
        Some(i) => return insert_cell_into_row(s, nodes, i, col, &cell),
        None => {},
    }
    let at = match find_row_behind(nodes, &list, row) {
        Some(k) => Some(k),
        None => splice::closing_tag_start(s, &nodes[data], "sheetData"),
    };
    match at {
        Some(k) => {
            let mut t = "<".to_owned();
            t.append(&prefix);
            t.append("row r=\"");
            t.append(&text::size_text(row));
            t.append("\">");
            t.append(&cell);
            t.append("</");
            t.append(&prefix);
            t.append("row>");
            Ok(splice::insert_at_index(s, k, &t))
        },
        None => Err(coord::refuse("xml_patch_miss: sheetData closing tag not found")),
    }
}

// ----- Writing a cell -----

/// The first node from `i` on that is the cell with the given name.
pub open spec fn cell_from(nodes: Nodes, cell_ref: Seq<char>, i: int) -> Option<int>
    decreases nodes.len() - i,
{
    if i < 0 || i >= nodes.len() {
        None
    } else if nodes[i].name == "c"@ && xml::attr(nodes[i], "r"@) == Some(cell_ref) {
        Some(i)
    } else {
        cell_from(nodes, cell_ref, i + 1)
    }
}

fn find_cell(nodes: &Vec<XmlNode>, cell_ref: &str) -> (r: Option<usize>)
    ensures
        text::pos(r) == cell_from(nodes.deep_view(), cell_ref@, 0),
        r matches Some(k) ==> k < nodes.len(),
{
    let ghost all = nodes.deep_view();
    let mut i: usize = 0;
    while i < nodes.len()
        invariant
            i <= nodes.len(),
            all == nodes.deep_view(),
            cell_from(all, cell_ref@, 0) == cell_from(all, cell_ref@, i as int),
        decreases nodes.len() - i,
    {
        assert(all[i as int] == nodes@[i as int].deep_view());
        if text::same(&nodes[i].name, "c") {
            match xml::attribute(&nodes[i], "r") {
                Some(t) => if text::same(&t, cell_ref) {
                    return Some(i);
                },
                None => {},
            }
        }
        i = i + 1;
    }
    None
}

/// A sheet's document, already read, with one cell written.
pub open spec fn cell_written(
    s: Seq<char>,
    nodes: Nodes,
    cell_ref: Seq<char>,
    row: usize,
    col: usize,
    w: CellWriteModel,
) -> Fallible<Seq<char>> {
    match cell_from(nodes, cell_ref, 0) {
        None => with_new_cell(s, nodes, cell_ref, row, col, w),
        Some(i) => match splice::tag_cut(splice::source(s, nodes[i])) {
            None => Err(
                coord::value_error(
                    "xml_patch_miss: malformed cell start tag for "@ + cell_ref,
                ),
            ),
            Some(cut) => Ok(
                splice::replaced_at(
                    s,
                    nodes[i].start as int,
                    nodes[i].end as int,
                    rewritten_cell(s, nodes, i, cut.0, w),
                ),
            ),
        },
    }
}

pub fn write_cell(
    s: &str,
    nodes: &Vec<XmlNode>,
    cell_ref: &str,
    row: usize,
    col: usize,
    w: &CellWrite,
) -> (r: Result<String, ShadowError>)
    ensures
        coord::outcome(r) == cell_written(
            s@,
            nodes.deep_view(),
            cell_ref@,
            row,
            col,
            w.deep_view(),
        ),
{
    let i = match find_cell(nodes, cell_ref) {
        Some(i) => i,
        None => return patch_missing_cell(s, nodes, cell_ref, row, col, w),
    };
    assert(nodes.deep_view()[i as int] == nodes@[i as int].deep_view());
    match splice::cut_tag(&splice::source_of(s, &nodes[i])) {
        Some(cut) => {
            let cell = build_existing_cell_xml(s, nodes, i, &cut.0, w);
            Ok(splice::replace_at(s, nodes[i].start, nodes[i].end, &cell))
        },
        None => {
            let mut m = "xml_patch_miss: malformed cell start tag for ".to_owned();
            m.append(cell_ref);
            Err(ShadowError::Value(m))
        },
    }
}

pub open spec fn cell_patched(
    s: Seq<char>,
    cell_ref: Seq<char>,
    row: usize,
    col: usize,
    w: CellWriteModel,
) -> Fallible<Seq<char>> {
    match package::nodes_of(s) {
        Ok(nodes) => cell_written(s, nodes, cell_ref, row, col, w),
        Err(e) => Err(e),
    }
}

/// Whether a text is `s` with what stands from `a` to `b` replaced.
#[verifier::opaque]
pub open spec fn differs_between(s: Seq<char>, out: Seq<char>, a: int, b: int) -> bool {
    &&& out.len() >= a + (s.len() - b)
    &&& out.take(a) == s.take(a)
    &&& out.skip(out.len() - (s.len() - b)) == s.skip(b)
}

/// Writes one cell of a sheet's document; a document that has the cell stays as it was before
/// and behind it.
pub fn patch_cell(s: &str, cell_ref: &str, row: usize, col: usize, w: &CellWrite) -> (r: Result<
    String,
    ShadowError,
>)
    ensures
        coord::outcome(r) == cell_patched(s@, cell_ref@, row, col, w.deep_view()),
        (match (package::nodes_of(s@), r) {
            (Ok(nodes), Ok(out)) => cell_from(nodes, cell_ref@, 0) matches Some(i)
                ==> differs_between(s@, out@, nodes[i].start as int, nodes[i].end as int),
            _ => true,
        }),
{
    match package::read_nodes(s) {
        Ok(nodes) => {
            proof {
                let list = nodes.deep_view();
                lemma_cell_from(list, cell_ref@, 0);
                if cell_from(list, cell_ref@, 0) is Some && cell_written(
                    s@,
                    list,
                    cell_ref@,
                    row,
                    col,
                    w.deep_view(),
                ) is Ok {
                    law_writing_keeps_the_rest(s@, list, cell_ref@, row, col, w.deep_view());
                }
            }
            write_cell(s, &nodes, cell_ref, row, col, w)
        },
        Err(e) => Err(e),
    }
}

proof fn lemma_cell_from(nodes: Nodes, cell_ref: Seq<char>, i: int)
    ensures
        cell_from(nodes, cell_ref, i) matches Some(k) ==> 0 <= k < nodes.len(),
    decreases nodes.len() - i,
{
    if 0 <= i < nodes.len() {
        lemma_cell_from(nodes, cell_ref, i + 1);
    }
}

/// Writing a cell that is there leaves the document before and behind it as it was.
pub proof fn law_writing_keeps_the_rest(
    s: Seq<char>,
    nodes: Nodes,
    cell_ref: Seq<char>,
    row: usize,
    col: usize,
    w: CellWriteModel,
)
    requires
        xml::within(nodes, s),
        cell_from(nodes, cell_ref, 0) is Some,
        cell_written(s, nodes, cell_ref, row, col, w) is Ok,
    ensures
        ({
            let n = nodes[cell_from(nodes, cell_ref, 0).unwrap()];
            let out = cell_written(s, nodes, cell_ref, row, col, w)->Ok_0;
            differs_between(s, out, n.start as int, n.end as int)
        }),
{
    reveal(differs_between);
    lemma_cell_from(nodes, cell_ref, 0);
    let i = cell_from(nodes, cell_ref, 0).unwrap();
    let n = nodes[i];
    let out = cell_written(s, nodes, cell_ref, row, col, w)->Ok_0;
    assert(text::slice(s, 0, n.start as int) == s.take(n.start as int));
    assert(text::slice(s, n.end as int, s.len() as int) == s.skip(n.end as int));
    assert(out.take(n.start as int) == s.take(n.start as int));
    assert(out.skip(out.len() - (s.len() - n.end)) == s.skip(n.end as int));
}

// ----- Shared texts -----

pub type UsageModel = Seq<(usize, usize)>;

pub type SharedRefsModel = Seq<(Key<Seq<char>>, usize)>;

/// The cell of a node that shows a shared text, and which text.
pub open spec fn shared_ref(nodes: Nodes, i: int, sheet: Seq<char>) -> Option<(Key<Seq<char>>, usize)> {
    if xml::attr(nodes[i], "t"@) != Some("s"@) {
        None
    } else {
        match xml::attr(nodes[i], "r"@) {
            None => None,
            Some(t) => match coord::a1(t) {
                None => None,
                Some((col, row)) => match text::parsed_size(xml::text_of_child(nodes, i, "v"@)) {
                    None => None,
                    Some(index) => Some((coord::key(sheet, row, col), index)),
                },
            },
        }
    }
}

fn shared_ref_of(nodes: &Vec<XmlNode>, i: usize, sheet: &str) -> (r: Option<(Key, usize)>)
    requires
        i < nodes.len(),
    ensures
        r.deep_view() == shared_ref(nodes.deep_view(), i as int, sheet@),
{
    assert(nodes.deep_view()[i as int] == nodes@[i as int].deep_view());
    match xml::attribute(&nodes[i], "t") {
        Some(t) => if !text::same(&t, "s") {
            return None;
        },
        None => return None,
    }
    match xml::attribute(&nodes[i], "r") {
        Some(t) => match coord::parse_a1(&t) {
            Some((col, row)) => match text::parse_size(&xml::child_text(nodes, i, "v")) {
                Some(index) => Some((coord::key_of(sheet, row, col), index)),
                None => None,
            },
            None => None,
        },
        None => None,
    }
}

/// A table of counts with one more for `index`.
pub open spec fn counted(usage: UsageModel, index: usize) -> UsageModel {
    let n = match entries::get(usage, index) {
        Some(n) => n,
        None => 0,
    };
    entries::put(usage, index, objects::saturated(n + 1))
}

fn count_up(usage: &mut Vec<(usize, usize)>, index: usize)
    ensures
        final(usage).deep_view() == counted(old(usage).deep_view(), index),
{
    let n = match entries::map_get(usage, &index) {
        Some(n) => *n,
        None => 0,
    };
    entries::map_put(usage, index, n.saturating_add(1));
}

/// How often each shared text is shown, and by which cells, with those of a sheet.
pub open spec fn shared_refs(
    usage: UsageModel,
    refs: SharedRefsModel,
    nodes: Nodes,
    list: Seq<int>,
    sheet: Seq<char>,
) -> (UsageModel, SharedRefsModel)
    decreases list.len(),
{
    if list.len() == 0 {
        (usage, refs)
    } else {
        let done = shared_refs(usage, refs, nodes, list.drop_last(), sheet);
        match shared_ref(nodes, list.last(), sheet) {
            Some((k, index)) => (counted(done.0, index), entries::put(done.1, k, index)),
            None => done,
        }
    }
}

pub fn add_shared_refs(
    nodes: &Vec<XmlNode>,
    sheet: &str,
    usage: &mut Vec<(usize, usize)>,
    refs: &mut Vec<(Key, usize)>,
)
    ensures
        (final(usage).deep_view(), final(refs).deep_view()) == shared_refs(
            old(usage).deep_view(),
            old(refs).deep_view(),
            nodes.deep_view(),
            xml::named(nodes.deep_view(), "c"@),
            sheet@,
        ),
{
    let ghost all = nodes.deep_view();
    let ghost u = usage.deep_view();
    let ghost k = refs.deep_view();
    let list = xml::all_named(nodes, "c");
    let ghost model = xml::ints(list@);
    let mut i: usize = 0;
    assert(model.take(0).len() == 0);
    while i < list.len()
        invariant
            i <= list.len(),
            all == nodes.deep_view(),
            model == xml::ints(list@),
            forall|n: int| 0 <= n < list@.len() ==> #[trigger] list@[n] < nodes.len(),
            (usage.deep_view(), refs.deep_view()) == shared_refs(
                u,
                k,
                all,
                model.take(i as int),
                sheet@,
            ),
        decreases list.len() - i,
    {
        let at = list[i];
        assert(model.take(i + 1).drop_last() == model.take(i as int));
        assert(model.take(i + 1).last() == at as int);
        match shared_ref_of(nodes, at, sheet) {
            Some((key, index)) => {
                count_up(usage, index);
                entries::map_put(refs, key, index);
            },
            None => {},
        }
        i = i + 1;
    }
    assert(model.take(model.len() as int) == model);
}

/// Adds what a sheet's document shows of the shared texts; where the document cannot
/// be read, nothing is added.
pub fn collect_shared_string_refs(
    sheet_name: &str,
    s: &str,
    usage: &mut Vec<(usize, usize)>,
    refs: &mut Vec<(Key, usize)>,
) -> (r: Result<(), ShadowError>)
    ensures
        match package::nodes_of(s@) {
            Ok(nodes) => r is Ok && (final(usage).deep_view(), final(refs).deep_view())
                == shared_refs(
                old(usage).deep_view(),
                old(refs).deep_view(),
                nodes,
                xml::named(nodes, "c"@),
                sheet_name@,
            ),
            Err(e) => r is Err && r->Err_0.deep_view() == e && final(usage).deep_view() == old(
                usage,
            ).deep_view() && final(refs).deep_view() == old(refs).deep_view(),
        },
{
    match package::read_nodes(s) {
        Ok(nodes) => {
            add_shared_refs(&nodes, sheet_name, usage, refs);
            Ok(())
        },
        Err(e) => Err(e),
    }
}

pub type SharedUpdates = Seq<(usize, Seq<char>)>;

/// The first of the updates from `i` on that is of a text that is not there.
pub open spec fn missing_from(updates: SharedUpdates, count: nat, i: int) -> Option<usize>
    decreases updates.len() - i,
{
    if i < 0 || i >= updates.len() {
        None
    } else if updates[i].0 >= count {
        Some(updates[i].0)
    } else {
        missing_from(updates, count, i + 1)
    }
}

fn find_missing(updates: &Vec<(usize, String)>, count: usize) -> (r: Option<usize>)
    ensures
        r == missing_from(updates.deep_view(), count as nat, 0),
{
    let ghost all = updates.deep_view();
    let mut i: usize = 0;
    while i < updates.len()
        invariant
            i <= updates.len(),
            all == updates.deep_view(),
            missing_from(all, count as nat, 0) == missing_from(all, count as nat, i as int),
        decreases updates.len() - i,
    {
        assert(all[i as int] == updates@[i as int].deep_view());
        if updates[i].0 >= count {
            return Some(updates[i].0);
        }
        i = i + 1;
    }
    None
}

/// The pieces for the first `n` shared texts; an error names the first without text.
pub open spec fn shared_pieces(
    s: Seq<char>,
    nodes: Nodes,
    list: Seq<int>,
    updates: SharedUpdates,
    n: int,
) -> Fallible<Splices>
    decreases n,
{
    if n <= 0 {
        Ok(Seq::empty())
    } else {
        match shared_pieces(s, nodes, list, updates, n - 1) {
            Err(e) => Err(e),
            Ok(done) => match entries::get(updates, (n - 1) as usize) {
                None => Ok(done),
                Some(value) => match text_payload(s, nodes, list[n - 1], value) {
                    None => Err(
                        coord::value_error(
                            "shared_string_policy: shared string index "@ + text::decimal(
                                (n - 1) as nat,
                            ) + " has no text node"@,
                        ),
                    ),
                    Some(t) => Ok(
                        done.push(
                            (nodes[list[n - 1]].start, (nodes[list[n - 1]].end, t)),
                        ),
                    ),
                },
            },
        }
    }
}

pub open spec fn splices_view(r: Result<Vec<(usize, (usize, String))>, ShadowError>) -> Fallible<
    Splices,
> {
    match r {
        Ok(v) => Ok(v.deep_view()),
        Err(e) => Err(e.deep_view()),
    }
}

proof fn lemma_pieces_stay_failed(
    s: Seq<char>,
    nodes: Nodes,
    list: Seq<int>,
    updates: SharedUpdates,
    i: int,
    n: int,
)
    requires
        0 <= i <= n,
        shared_pieces(s, nodes, list, updates, i) is Err,
    ensures
        shared_pieces(s, nodes, list, updates, n) == shared_pieces(s, nodes, list, updates, i),
    decreases n,
{
    if i < n {
        lemma_pieces_stay_failed(s, nodes, list, updates, i, n - 1);
    }
}

fn shared_pieces_of(
    s: &str,
    nodes: &Vec<XmlNode>,
    list: &Vec<usize>,
    updates: &Vec<(usize, String)>,
) -> (r: Result<Vec<(usize, (usize, String))>, ShadowError>)
    requires
        forall|k: int| 0 <= k < list@.len() ==> #[trigger] list@[k] < nodes.len(),
    ensures
        splices_view(r) == shared_pieces(
            s@,
            nodes.deep_view(),
            xml::ints(list@),
            updates.deep_view(),
            list@.len() as int,
        ),
{
    let ghost all = nodes.deep_view();
    let ghost model = xml::ints(list@);
    let ghost changed = updates.deep_view();
    let mut out: Vec<(usize, (usize, String))> = Vec::new();
    assert(out.deep_view() == Splices::empty());
    let mut i: usize = 0;
    while i < list.len()
        invariant
            i <= list.len(),
            all == nodes.deep_view(),
            model == xml::ints(list@),
            changed == updates.deep_view(),
            forall|k: int| 0 <= k < list@.len() ==> #[trigger] list@[k] < nodes.len(),
            shared_pieces(s@, all, model, changed, i as int) == Ok::<
                Splices,
                ShadowError<Seq<char>>,
            >(out.deep_view()),
        decreases list.len() - i,
    {
        let at = list[i];
        assert(model[i as int] == at as int);
        assert(all[at as int] == nodes@[at as int].deep_view());
        match entries::map_get(updates, &i) {
            None => {},
            Some(value) => match update_text_container_payload(s, nodes, at, value) {
                None => {
                    let mut m = "shared_string_policy: shared string index ".to_owned();
                    m.append(&text::size_text(i));
                    m.append(" has no text node");
                    proof {
                        lemma_pieces_stay_failed(
                            s@,
                            all,
                            model,
                            changed,
                            i + 1,
                            list@.len() as int,
                        );
                    }
                    return Err(ShadowError::Value(m));
                },
                Some(t) => {
                    let ghost before = out.deep_view();
                    out.push((nodes[at].start, (nodes[at].end, t)));
                    assert(out.deep_view() == before.push(
                        (nodes@[at as int].start, (nodes@[at as int].end, t@)),
                    ));
                },
            },
        }
        i = i + 1;
    }
    Ok(out)
}

/// The table of shared texts with some of them replaced. The whole table is refused
/// where one of them is not there or shows no text.
pub open spec fn shared_patched(s: Seq<char>, updates: SharedUpdates) -> Fallible<Seq<char>> {
    if updates.len() == 0 {
        Ok(s)
    } else {
        match package::nodes_of(s) {
            Err(e) => Err(e),
            Ok(nodes) => {
                let list = xml::named(nodes, "si"@);
                match missing_from(updates, list.len(), 0) {
                    Some(index) => Err(
                        coord::value_error(
                            "shared_string_policy: shared string index "@ + text::decimal(
                                index as nat,
                            ) + " not found"@,
                        ),
                    ),
                    None => match shared_pieces(s, nodes, list, updates, list.len() as int) {
                        Ok(pieces) => Ok(splice::spliced_in_order(s, pieces)),
                        Err(e) => Err(e),
                    },
                }
            },
        }
    }
}

pub fn patch_shared_strings_xml(s: &str, updates: &Vec<(usize, String)>) -> (r: Result<
    String,
    ShadowError,
>)
    ensures
        coord::outcome(r) == shared_patched(s@, updates.deep_view()),
{
    assert(updates.deep_view().len() == updates.len());
    if updates.len() == 0 {
        return Ok(s.to_owned());
    }
    let nodes = match package::read_nodes(s) {
        Ok(nodes) => nodes,
        Err(e) => return Err(e),
    };
    let list = xml::all_named(&nodes, "si");
    assert(xml::ints(list@).len() == list.len());
    match find_missing(updates, list.len()) {
        Some(index) => {
            let mut m = "shared_string_policy: shared string index ".to_owned();
            m.append(&text::size_text(index));
            m.append(" not found");
            return Err(ShadowError::Value(m));
        },
        None => {},
    }
    match shared_pieces_of(s, &nodes, &list, updates) {
        Ok(pieces) => Ok(splice::splice(s, pieces)),
        Err(e) => Err(e),
    }
}

} // verus!
