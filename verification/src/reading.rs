//! What is written reads back, through nodes that show the written text as it stands.

use crate::cells;
use crate::cellxml;
use crate::coord;
use crate::coord::Key;
use crate::drawings;
use crate::entries;
use crate::objects;
use crate::package;
use crate::partxml;
use crate::records::{
    AutoFilterRule, CellComment, ConditionalFormatRule, DataValidationRule, DefinedName, SheetInfo,
};
use crate::sheetparts;
use crate::sheetxml;
use crate::splice;
use crate::text;
use crate::written;
use crate::xml;
use crate::xml::{NodeModel, Nodes};
use vstd::prelude::*;
use vstd::string::*;

verus! {

/// Whether a node has the attributes of the first element of a name in a text.
pub open spec fn shows_element(n: NodeModel, s: Seq<char>, name: Seq<char>) -> bool {
    forall|a: Seq<char>| #[trigger] xml::attr(n, a) == xml::element_attr(s, name, a)
}

/// Whether a child of a node has the text of the first element of a name in a text.
pub open spec fn shows_child(
    nodes: Nodes,
    i: int,
    child: Seq<char>,
    s: Seq<char>,
    name: Seq<char>,
) -> bool {
    xml::text_of_child(nodes, i, child) == match xml::element_text(s, name) {
        Some(t) => t,
        None => Seq::empty(),
    }
}

proof fn lemma_flags()
    ensures
        package::is_true("1"@),
        !package::is_true("0"@),
{
    reveal_strlit("0");
    reveal_strlit("1");
    reveal_strlit("true");
    assert("0"@[0] == '0' && "1"@[0] == '1');
    assert(text::lower("0"@).len() == 1);
    assert(text::lower("true"@).len() == 4);
}

/// A written validation is read back as it was.
pub proof fn law_written_validations_are_read_back(
    prefix: Seq<char>,
    v: DataValidationRule<Seq<char>>,
    nodes: Nodes,
    i: int,
)
    requires
        xml::plain_prefix(prefix),
        v.range.is_valid(),
        ({
            let s = sheetxml::validation_element(prefix, v);
            &&& shows_element(nodes[i], s, prefix + "dataValidation"@)
            &&& shows_child(nodes, i, "formula1"@, s, prefix + "formula1"@)
            &&& shows_child(nodes, i, "formula2"@, s, prefix + "formula2"@)
        }),
    ensures
        sheetparts::validation_at(nodes, i, v.range.sheet) == Some(v),
{
    written::law_written_validations_tell_the_rule(prefix, v);
    sheetparts::law_ranges_read_back(v.range);
    lemma_flags();
    let s = sheetxml::validation_element(prefix, v);
    let name = prefix + "dataValidation"@;
    assert(xml::attr(nodes[i], "sqref"@) == xml::element_attr(s, name, "sqref"@));
    assert(xml::attr(nodes[i], "type"@) == xml::element_attr(s, name, "type"@));
    assert(xml::attr(nodes[i], "operator"@) == xml::element_attr(s, name, "operator"@));
    assert(xml::attr(nodes[i], "allowBlank"@) == xml::element_attr(s, name, "allowBlank"@));
    let r = sheetparts::validation_at(nodes, i, v.range.sheet)->Some_0;
    assert(r.operator =~= v.operator);
    assert(r.formula1 =~= v.formula1);
    assert(r.formula2 =~= v.formula2);
}

/// A written conditional format is read back as it was.
pub proof fn law_written_formats_are_read_back(
    prefix: Seq<char>,
    f: ConditionalFormatRule<Seq<char>>,
    nodes: Nodes,
    i: int,
    k: int,
)
    requires
        xml::plain_prefix(prefix),
        f.range.is_valid(),
        ({
            let s = sheetxml::format_element(prefix, f);
            &&& shows_element(nodes[i], s, prefix + "conditionalFormatting"@)
            &&& shows_element(nodes[k], s, prefix + "cfRule"@)
            &&& shows_child(nodes, k, "formula"@, s, prefix + "formula"@)
        }),
    ensures
        xml::attr(nodes[i], "sqref"@) matches Some(t) && sheetparts::object_range(
            f.range.sheet,
            t,
        ) == Some(f.range),
        sheetparts::format_rule(nodes, k, f.range) == f,
{
    written::law_written_formats_tell_the_rule(prefix, f);
    sheetparts::law_ranges_read_back(f.range);
    coord::law_decimal_reads_back(f.priority as nat, usize::MAX as nat);
    let s = sheetxml::format_element(prefix, f);
    let outer = prefix + "conditionalFormatting"@;
    let rule = prefix + "cfRule"@;
    assert(xml::attr(nodes[i], "sqref"@) == xml::element_attr(s, outer, "sqref"@));
    assert(xml::attr(nodes[k], "type"@) == xml::element_attr(s, rule, "type"@));
    assert(xml::attr(nodes[k], "operator"@) == xml::element_attr(s, rule, "operator"@));
    assert(xml::attr(nodes[k], "priority"@) == xml::element_attr(s, rule, "priority"@));
    let r = sheetparts::format_rule(nodes, k, f.range);
    assert(r.operator =~= f.operator);
}

/// The written filter of a sheet is read back as it was.
pub proof fn law_written_filters_are_read_back(
    prefix: Seq<char>,
    filters: Seq<AutoFilterRule<Seq<char>>>,
    f: AutoFilterRule<Seq<char>>,
    nodes: Nodes,
    k: int,
)
    requires
        xml::plain_prefix(prefix),
        filters.len() > 0,
        filters[0] == f,
        f.range.is_valid(),
        xml::first_of(xml::named(nodes, "autoFilter"@)) == Some(k),
        shows_element(
            nodes[k],
            sheetxml::filter_element(prefix, f.range.sheet, filters, 0),
            prefix + "autoFilter"@,
        ),
    ensures
        sheetparts::filter_in(nodes, f.range.sheet) == Some(f),
{
    written::law_written_filters_name_their_range(prefix, f.range.sheet, filters, 0);
    sheetparts::law_ranges_read_back(f.range);
    let s = sheetxml::filter_element(prefix, f.range.sheet, filters, 0);
    assert(xml::attr(nodes[k], "ref"@) == xml::element_attr(s, prefix + "autoFilter"@, "ref"@));
}

/// A written comment is read back as it was.
pub proof fn law_written_comment_is_read_back(
    c: CellComment<Seq<char>>,
    nodes: Nodes,
    i: int,
)
    requires
        ({
            let found = xml::marked(partxml::comment_elements(seq![c]));
            &&& xml::attr(nodes[i], "ref"@) == written::attrs_named(found, "comment"@, "ref"@)[0]
            &&& xml::texts_joined(nodes, xml::named_in(nodes, i, "t"@)) == written::texts_named(
                found,
                "t"@,
            )[0]
        }),
    ensures
        sheetparts::comment_at(nodes, i, c.key.sheet) == Some(c),
{
    let list = seq![c];
    written::law_written_comments_tell_cell_and_text(list);
    assert(list[0] == c);
    coord::law_a1_reads_back(c.key.row, c.key.col);
}

/// A sheet is read back under the name and with the state that were written.
pub proof fn law_written_sheets_are_read_back(
    tag: Seq<char>,
    sheet: SheetInfo<Seq<char>>,
    n: NodeModel,
    paths: Seq<(Seq<char>, Seq<char>)>,
)
    requires
        splice::taken_out(tag, "name"@),
        splice::taken_out(splice::with_attr(tag, "name"@, sheet.name), "state"@),
        forall|a: Seq<char>| #[trigger]
            xml::attr(n, a) == xml::tag_attr(partxml::sheet_tag(tag, sheet), a),
        package::id_value_from(n.attributes, 0) == Some(sheet.rel_id),
        entries::get(paths, sheet.rel_id) == Some(sheet.path),
        xml::tag_attr(tag, "sheetId"@) == Some(sheet.sheet_id),
    ensures
        package::sheet_info(n, paths) == Some(sheet),
{
    partxml::law_written_sheet_tags_read_back(tag, sheet);
    assert("sheetId"@ != "name"@ && "sheetId"@ != "state"@) by {
        reveal_strlit("sheetId");
        reveal_strlit("name");
        reveal_strlit("state");
        assert("sheetId"@.len() == 7 && "name"@.len() == 4 && "state"@.len() == 5);
    }
    let t = partxml::sheet_tag(tag, sheet);
    assert(xml::attr(n, "name"@) == xml::tag_attr(t, "name"@));
    assert(xml::attr(n, "state"@) == xml::tag_attr(t, "state"@));
    assert(xml::attr(n, "sheetId"@) == xml::tag_attr(t, "sheetId"@));
}

/// The line of a marker is read back from the number that is written for it.
pub proof fn law_written_markers_are_read_back(line: usize)
    requires
        line > 0,
    ensures
        drawings::from_one(text::decimal(partxml::from_zero(line))) == Some(line),
{
    coord::law_decimal_reads_back((line - 1) as nat, usize::MAX as nat);
}

/// A defined name is read back with what it was given to stand for.
pub proof fn law_written_names_are_read_back(
    n: NodeModel,
    sheets: package::SheetsModel,
    d: DefinedName<Seq<char>>,
)
    requires
        xml::attr(n, "name"@) == Some(d.name),
        text::trim(d.name).len() > 0,
        n.text == Some(d.target),
        text::trim(d.target) == d.target,
        d.target.len() > 0,
    ensures
        package::defined_name(n, sheets) matches Some(found) && found.name == d.name
            && found.target == d.target,
{
}

/// A table is read back from its document: its name, its cells and the place of its totals.
pub proof fn law_table_documents_are_read_back(
    nodes: Nodes,
    k: int,
    t: objects::TableModel,
)
    requires
        xml::first_of(xml::named(nodes, "table"@)) == Some(k),
        xml::attr(nodes[k], "displayName"@) == Some(t.name),
        xml::attr(nodes[k], "ref"@) == Some(
            coord::a1_text(t.start_row, t.start_col) + ":"@ + coord::a1_text(t.end_row, t.end_col),
        ),
        t.start_row <= t.end_row,
        t.start_col <= t.end_col,
    ensures
        sheetparts::table_in(nodes, t.sheet, t.path) matches Some(found) && found.name == t.name
            && found.sheet == t.sheet && found.path == t.path && found.start_row == t.start_row
            && found.end_row == t.end_row && found.start_col == t.start_col && found.end_col
            == t.end_col,
{
    let a = coord::a1_text(t.start_row, t.start_col);
    let b = coord::a1_text(t.end_row, t.end_col);
    reveal_strlit(":");
    coord::lemma_a1_plain(t.start_row, t.start_col);
    assert forall|i: int| 0 <= i < a.len() implies #[trigger] a[i] != ":"@[0] by {
        assert(text::is_alnum(a[i]));
    }
    text::lemma_cut_at_sign(a, ":"@, b);
    coord::law_a1_reads_back(t.start_row, t.start_col);
    coord::law_a1_reads_back(t.end_row, t.end_col);
}

/// The part with the relationships of a part lies beside it, in a directory of its own.
pub proof fn law_relationships_lie_beside_their_part(dir: Seq<char>, file: Seq<char>)
    requires
        forall|i: int| 0 <= i < file.len() ==> #[trigger] file[i] != '/',
    ensures
        package::rels_path(dir + "/"@ + file) == dir + "/_rels/"@ + file + ".rels"@,
        package::file_name(dir + "/"@ + file) == file,
{
    reveal_strlit("/");
    let whole = dir + "/"@ + file;
    lemma_last_slash(whole, dir.len() as int, whole.len() - 1);
    assert(text::slice(whole, 0, dir.len() as int) == dir);
    assert(text::slice(whole, (dir.len() + 1) as int, whole.len() as int) == file);
    assert(text::rcut(whole, "/"@) == Some((dir, file)));
}

proof fn lemma_last_slash(s: Seq<char>, at: int, i: int)
    requires
        0 <= at <= i < s.len(),
        s[at] == '/',
        forall|j: int| at < j < s.len() ==> #[trigger] s[j] != '/',
    ensures
        text::rfind_from(s, "/"@, i) == Some(at),
    decreases i - at,
{
    reveal_strlit("/");
    assert(s.subrange(i, i + 1)[0] == s[i]);
    if i > at {
        lemma_last_slash(s, at, i - 1);
    } else {
        assert(s.subrange(at, at + 1) =~= "/"@);
    }
}

/// A target from the root of the package is a path as it stands; the part of a sheet lies under
/// the workbook's directory where its target does not say so.
pub proof fn law_targets_are_paths_of_the_package(base: Seq<char>, t: Seq<char>)
    ensures
        package::target_path(base, "/xl/"@ + t) == "xl/"@ + t,
        package::sheet_path("/xl/"@ + t) == "xl/"@ + t,
        package::sheet_path("xl/"@ + t) == "xl/"@ + t,
        t.len() > 0 && t[0] != '/' && !text::starts(t, "xl/"@) ==> package::sheet_path(t) == "xl/"@
            + t,
{
    reveal_strlit("/xl/");
    reveal_strlit("xl/");
    let whole = "/xl/"@ + t;
    let path = "xl/"@ + t;
    assert(path[0] == 'x');
    assert(text::drop_leading(path, '/') == path);
    assert(whole.subrange(1, whole.len() as int) =~= path);
    assert(text::drop_leading(whole, '/') == path) by {
        assert(whole[0] == '/');
    }
    assert(path.subrange(0, 3) =~= "xl/"@);
    assert(text::starts(path, "xl/"@));
    if t.len() > 0 && t[0] != '/' {
        assert(text::drop_leading(t, '/') == t);
    }
}

// ----- Cells -----

/// Whether a child of a cell's node has the text of the first element of a name in a text.
pub open spec fn shows_text(found: Seq<char>, s: Seq<char>, name: Seq<char>) -> bool {
    found == match xml::element_text(s, name) {
        Some(t) => t,
        None => Seq::empty(),
    }
}

/// A written cell is read back: its value is there, in place or among the shared texts, and
/// its formula stands behind its sign.
#[verifier::rlimit(40)]
#[verifier::spinoff_prover]
pub proof fn law_written_cells_are_read_back(
    prefix: Seq<char>,
    tag: Seq<char>,
    w: cellxml::CellWriteModel,
    nodes: Nodes,
    i: int,
    shared: Seq<Seq<char>>,
)
    requires
        xml::plain_prefix(prefix),
        written::type_taken_out(tag),
        w.formula is Some ==> !w.inline,
        w.shared matches Some(index) ==> index < shared.len() && shared[index as int] == w.value,
        xml::attr(nodes[i], "t"@) == xml::tag_attr(cellxml::typed_tag(tag, w), "t"@),
        ({
            let s = cellxml::payload(prefix, w, None);
            &&& shows_text(xml::text_of_child(nodes, i, "v"@), s, prefix + "v"@)
            &&& shows_text(xml::text_of_child(nodes, i, "f"@), s, prefix + "f"@)
            &&& shows_text(
                xml::texts_joined(nodes, xml::named_in(nodes, i, "t"@)),
                s,
                prefix + "t"@,
            )
        }),
    ensures
        cells::node_value(nodes, i, shared) == w.value,
        w.shared is None && w.formula is Some ==> xml::text_of_child(nodes, i, "f"@)
            == text::drop_leading(w.formula->Some_0, '='),
        w.formula is None ==> xml::text_of_child(nodes, i, "f"@).len() == 0,
{
    written::law_written_cells_hold_what_is_asked_for(prefix, w);
    written::law_written_cells_tell_their_type(tag, w);
    lemma_type_names();
    if let Some(index) = w.shared {
        coord::law_decimal_reads_back(index as nat, usize::MAX as nat);
    }
}

proof fn lemma_type_names()
    ensures
        "s"@ != "inlineStr"@,
        "s"@.len() > 0 && "inlineStr"@.len() > 0,
{
    reveal_strlit("s");
    reveal_strlit("inlineStr");
    assert("s"@.len() == 1 && "inlineStr"@.len() == 9);
}

/// A cell of a document is kept under its place with its value, and its formula with its sign;
/// what was kept of other cells stays.
pub proof fn law_read_cells_are_kept_under_their_place(
    g: cells::GridModel,
    nodes: Nodes,
    i: int,
    k: Key<Seq<char>>,
    shared: Seq<Seq<char>>,
    styles: Seq<Seq<char>>,
    other: Key<Seq<char>>,
)
    requires
        xml::attr(nodes[i], "r"@) == Some(coord::a1_text(k.row, k.col)),
    ensures
        ({
            let r = cells::with_cell(g, nodes, i, k.sheet, shared, styles);
            let f = xml::text_of_child(nodes, i, "f"@);
            &&& entries::get(r.cells, k) == Some(cells::node_value(nodes, i, shared))
            &&& other != k ==> entries::get(r.cells, other) == entries::get(g.cells, other)
            &&& f.len() > 0 && f[0] != '=' ==> (entries::get(r.formulas, k) matches Some(c)
                && c.formula == "="@ + f)
            &&& f.len() == 0 ==> r.formulas == g.formulas
            &&& other != k ==> entries::get(r.formulas, other) == entries::get(g.formulas, other)
            &&& r.merges == g.merges
        }),
{
    coord::law_a1_reads_back(k.row, k.col);
    let value = cells::node_value(nodes, i, shared);
    let f = xml::text_of_child(nodes, i, "f"@);
    let cell = cells::FormulaCell { formula: cells::with_sign(f), deps: Seq::empty() };
    entries::law_get_after_put(g.cells, k, value, k);
    entries::law_get_after_put(g.cells, k, value, other);
    entries::law_get_after_put(g.formulas, k, cell, k);
    entries::law_get_after_put(g.formulas, k, cell, other);
    reveal_strlit("=");
    if f.len() > 0 && f[0] != '=' {
        assert(f.subrange(0, 1)[0] == f[0]);
    }
}

} // verus!
