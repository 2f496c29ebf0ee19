//! The cells of a sheet's document.

use crate::coord;
use crate::coord::{Key, ShadowError};
use crate::deps::CellsModel;
use crate::entries;
use crate::package;
use crate::package::Fallible;
use crate::records::ShadowMetaRecord;
use crate::text;
use crate::xml;
use crate::xml::{Nodes, XmlNode};
use vstd::prelude::*;
use vstd::string::*;

verus! {

/// A cell's formula with the cells that it depends on.
#[verifier::ext_equal]
pub struct FormulaCell<S = String, D = Vec<Key>> {
    pub formula: S,
    pub deps: D,
}

pub type FormulaModel = FormulaCell<Seq<char>, Seq<Key<Seq<char>>>>;

impl DeepView for FormulaCell<String, Vec<Key>> {
    type V = FormulaCell<Seq<char>, Seq<Key<Seq<char>>>>;

    open spec fn deep_view(&self) -> FormulaModel {
        FormulaCell { formula: self.formula@, deps: self.deps.deep_view() }
    }
}

pub type MergesModel = Seq<(Seq<char>, Seq<Seq<char>>)>;

pub type FormulasModel = Seq<(Key<Seq<char>>, FormulaModel)>;

pub type MetaModel = Seq<(Key<Seq<char>>, ShadowMetaRecord<Seq<char>>)>;

/// What the sheets hold: merged ranges by sheet, values, formulas and what else is known of
/// the cells.
#[verifier::ext_equal]
pub struct Grid<
    M = Vec<(String, Vec<String>)>,
    C = Vec<(Key, String)>,
    F = Vec<(Key, FormulaCell)>,
    T = Vec<(Key, ShadowMetaRecord)>,
> {
    pub merges: M,
    pub cells: C,
    pub formulas: F,
    pub meta: T,
}

pub type GridModel = Grid<MergesModel, CellsModel, FormulasModel, MetaModel>;

impl DeepView for Grid {
    type V = GridModel;

    open spec fn deep_view(&self) -> GridModel {
        Grid {
            merges: self.merges.deep_view(),
            cells: self.cells.deep_view(),
            formulas: self.formulas.deep_view(),
            meta: self.meta.deep_view(),
        }
    }
}

/// What kind of content a cell has, by its type in the document, its formula and its value.
pub open spec fn cell_kind(cell_type: Seq<char>, formula: Seq<char>, raw: Seq<char>) -> Seq<char> {
    if formula.len() > 0 {
        "formula"@
    } else if cell_type == "s"@ || cell_type == "str"@ || cell_type == "inlineStr"@ {
        "string"@
    } else if cell_type == "b"@ {
        "bool"@
    } else if cell_type == "e"@ {
        "error"@
    } else if cell_type == "d"@ {
        "date"@
    } else if raw.len() == 0 {
        "blank"@
    } else {
        "number"@
    }
}

pub fn classify_cell_type(cell_type: &str, formula: &str, raw_value: &str) -> (r: String)
    ensures
        r@ == cell_kind(cell_type@, formula@, raw_value@),
{
    if !formula.is_empty() {
        "formula".to_owned()
    } else if text::same(cell_type, "s") || text::same(cell_type, "str") || text::same(
        cell_type,
        "inlineStr",
    ) {
        "string".to_owned()
    } else if text::same(cell_type, "b") {
        "bool".to_owned()
    } else if text::same(cell_type, "e") {
        "error".to_owned()
    } else if text::same(cell_type, "d") {
        "date".to_owned()
    } else if raw_value.is_empty() {
        "blank".to_owned()
    } else {
        "number".to_owned()
    }
}

/// A formula with its sign of equality.
pub open spec fn with_sign(formula: Seq<char>) -> Seq<char> {
    if text::starts(formula, "="@) {
        formula
    } else {
        "="@ + formula
    }
}

pub fn formula_with_sign(formula: &str) -> (r: String)
    ensures
        r@ == with_sign(formula@),
{
    if text::starts_with(formula, "=") {
        formula.to_owned()
    } else {
        let mut out = "=".to_owned();
        out.append(formula);
        out
    }
}

/// The text of a given number; empty where there is none.
pub open spec fn text_at(list: Seq<Seq<char>>, i: Option<nat>) -> Seq<char> {
    match i {
        Some(n) => if n < list.len() {
            list[n as int]
        } else {
            Seq::empty()
        },
        None => Seq::empty(),
    }
}

/// The value of a cell: a shared string by its number, a string in place, or as it stands.
pub open spec fn node_value(nodes: Nodes, i: int, shared: Seq<Seq<char>>) -> Seq<char> {
    let cell_type = xml::attr_or_empty(nodes[i], "t"@);
    let raw = xml::text_of_child(nodes, i, "v"@);
    if cell_type == "s"@ {
        text_at(shared, text::parsed(raw, usize::MAX as nat))
    } else if cell_type == "inlineStr"@ {
        xml::texts_joined(nodes, xml::named_in(nodes, i, "t"@))
    } else {
        raw
    }
}

fn value_of_node(nodes: &Vec<XmlNode>, i: usize, shared: &Vec<String>) -> (r: String)
    requires
        i < nodes.len(),
    ensures
        r@ == node_value(nodes.deep_view(), i as int, shared.deep_view()),
{
    assert(nodes.deep_view()[i as int] == nodes@[i as int].deep_view());
    assert(shared.deep_view().len() == shared.len());
    let cell_type = xml::attribute_or_empty(&nodes[i], "t");
    let raw = xml::child_text(nodes, i, "v");
    if text::same(&cell_type, "s") {
        match text::parse_size(&raw) {
            Some(n) => if n < shared.len() {
                assert(shared.deep_view()[n as int] == shared@[n as int]@);
                shared[n].clone()
            } else {
                String::new()
            },
            None => String::new(),
        }
    } else if text::same(&cell_type, "inlineStr") {
        xml::join_texts_in(nodes, i, "t")
    } else {
        raw
    }
}

/// What is known of a cell when it is read.
pub open spec fn node_meta(
    nodes: Nodes,
    i: int,
    k: Key<Seq<char>>,
    value: Seq<char>,
    styles: Seq<Seq<char>>,
) -> ShadowMetaRecord<Seq<char>> {
    let formula = xml::text_of_child(nodes, i, "f"@);
    let style = package::as_u32(xml::attr(nodes[i], "s"@));
    ShadowMetaRecord {
        sheet_name: k.sheet,
        row_idx: k.row,
        col_idx: k.col,
        cell_type: cell_kind(
            xml::attr_or_empty(nodes[i], "t"@),
            formula,
            xml::text_of_child(nodes, i, "v"@),
        ),
        style_id: style,
        number_format: text_at(
            styles,
            match style {
                Some(id) => Some(id as nat),
                None => None,
            },
        ),
        original_formula: if formula.len() == 0 {
            Seq::empty()
        } else {
            with_sign(formula)
        },
        cached_value_before: value,
        cached_value_after: value,
        merge_range: Seq::empty(),
        is_modified: false,
        is_dirty: false,
    }
}

fn meta_of_node(nodes: &Vec<XmlNode>, i: usize, k: &Key, value: &str, styles: &Vec<String>) -> (r:
    ShadowMetaRecord)
    requires
        i < nodes.len(),
    ensures
        r.deep_view() == node_meta(
            nodes.deep_view(),
            i as int,
            k.deep_view(),
            value@,
            styles.deep_view(),
        ),
{
    assert(nodes.deep_view()[i as int] == nodes@[i as int].deep_view());
    assert(styles.deep_view().len() == styles.len());
    let formula = xml::child_text(nodes, i, "f");
    let style = package::attr_u32(&nodes[i], "s");
    let number_format = match style {
        Some(id) => if (id as usize) < styles.len() {
            assert(styles.deep_view()[id as int] == styles@[id as int]@);
            styles[id as usize].clone()
        } else {
            String::new()
        },
        None => String::new(),
    };
    let cell_type = classify_cell_type(
        &xml::attribute_or_empty(&nodes[i], "t"),
        &formula,
        &xml::child_text(nodes, i, "v"),
    );
    ShadowMetaRecord {
        sheet_name: k.sheet.clone(),
        row_idx: k.row,
        col_idx: k.col,
        cell_type,
        style_id: style,
        number_format,
        original_formula: if formula.as_str().is_empty() {
            String::new()
        } else {
            formula_with_sign(&formula)
        },
        cached_value_before: value.to_owned(),
        cached_value_after: value.to_owned(),
        merge_range: String::new(),
        is_modified: false,
        is_dirty: false,
    }
}

/// What the sheets hold after one more cell is read.
pub open spec fn with_cell(
    g: GridModel,
    nodes: Nodes,
    i: int,
    sheet: Seq<char>,
    shared: Seq<Seq<char>>,
    styles: Seq<Seq<char>>,
) -> GridModel {
    match xml::attr(nodes[i], "r"@) {
        Some(t) => match coord::a1(t) {
            Some((col, row)) => {
                let k = coord::key(sheet, row, col);
                let value = node_value(nodes, i, shared);
                let formula = xml::text_of_child(nodes, i, "f"@);
                Grid {
                    cells: entries::put(g.cells, k, value),
                    meta: entries::put(g.meta, k, node_meta(nodes, i, k, value, styles)),
                    formulas: if formula.len() == 0 {
                        g.formulas
                    } else {
                        entries::put(
                            g.formulas,
                            k,
                            FormulaCell { formula: with_sign(formula), deps: Seq::empty() },
                        )
                    },
                    ..g
                }
            },
            None => g,
        },
        None => g,
    }
}

fn add_cell(
    g: &mut Grid,
    nodes: &Vec<XmlNode>,
    i: usize,
    sheet: &str,
    shared: &Vec<String>,
    styles: &Vec<String>,
)
    requires
        i < nodes.len(),
    ensures
        final(g).deep_view() == with_cell(
            old(g).deep_view(),
            nodes.deep_view(),
            i as int,
            sheet@,
            shared.deep_view(),
            styles.deep_view(),
        ),
{
    assert(nodes.deep_view()[i as int] == nodes@[i as int].deep_view());
    let (col, row) = match xml::attribute(&nodes[i], "r") {
        Some(t) => match coord::parse_a1(&t) {
            Some(place) => place,
            None => return,
        },
        None => return,
    };
    let k = coord::key_of(sheet, row, col);
    let value = value_of_node(nodes, i, shared);
    let record = meta_of_node(nodes, i, &k, &value, styles);
    let formula = xml::child_text(nodes, i, "f");
    entries::map_put(&mut g.cells, k.clone(), value);
    entries::map_put(&mut g.meta, k.clone(), record);
    if !formula.as_str().is_empty() {
        let deps: Vec<Key> = Vec::new();
        assert(deps.deep_view() == Seq::<Key<Seq<char>>>::empty());
        entries::map_put(
            &mut g.formulas,
            k,
            FormulaCell { formula: formula_with_sign(&formula), deps },
        );
    }
}

pub open spec fn with_cells(
    g: GridModel,
    nodes: Nodes,
    list: Seq<int>,
    sheet: Seq<char>,
    shared: Seq<Seq<char>>,
    styles: Seq<Seq<char>>,
) -> GridModel
    decreases list.len(),
{
    if list.len() == 0 {
        g
    } else {
        with_cell(
            with_cells(g, nodes, list.drop_last(), sheet, shared, styles),
            nodes,
            list.last(),
            sheet,
            shared,
            styles,
        )
    }
}

/// The merged ranges of a sheet with one more.
pub open spec fn with_merge(m: MergesModel, sheet: Seq<char>, range: Seq<char>) -> MergesModel {
    entries::put(
        m,
        sheet,
        entries::with(
            match entries::get(m, sheet) {
                Some(ranges) => ranges,
                None => Seq::empty(),
            },
            range,
        ),
    )
}

pub fn add_merge(m: &mut Vec<(String, Vec<String>)>, sheet: &str, range: String)
    ensures
        final(m).deep_view() == with_merge(old(m).deep_view(), sheet@, range@),
{
    let name = sheet.to_owned();
    let mut ranges: Vec<String> = match entries::map_get(m, &name) {
        Some(ranges) => copy_texts(ranges),
        None => {
            let none: Vec<String> = Vec::new();
            assert(none.deep_view() == Seq::<Seq<char>>::empty());
            none
        },
    };
    entries::set_add(&mut ranges, range);
    entries::map_put(m, name, ranges);
}

/// A copy of a list of texts.
pub fn copy_texts(v: &Vec<String>) -> (r: Vec<String>)
    ensures
        r.deep_view() == v.deep_view(),
{
    let out = v.clone();
    assert(out.deep_view() == v.deep_view());
    out
}

pub open spec fn with_merges(m: MergesModel, nodes: Nodes, list: Seq<int>, sheet: Seq<char>) -> MergesModel
    decreases list.len(),
{
    if list.len() == 0 {
        m
    } else {
        let done = with_merges(m, nodes, list.drop_last(), sheet);
        match xml::attr(nodes[list.last()], "ref"@) {
            Some(range) => with_merge(done, sheet, range),
            None => done,
        }
    }
}

/// What the sheets hold after one more sheet is read.
pub open spec fn with_sheet(
    g: GridModel,
    nodes: Nodes,
    sheet: Seq<char>,
    shared: Seq<Seq<char>>,
    styles: Seq<Seq<char>>,
) -> GridModel {
    let merged = Grid {
        merges: with_merges(g.merges, nodes, xml::named(nodes, "mergeCell"@), sheet),
        ..g
    };
    with_cells(merged, nodes, xml::named(nodes, "c"@), sheet, shared, styles)
}

/// Adds what a sheet's document holds.
pub fn add_sheet(
    g: &mut Grid,
    nodes: &Vec<XmlNode>,
    sheet: &str,
    shared: &Vec<String>,
    styles: &Vec<String>,
)
    ensures
        final(g).deep_view() == with_sheet(
            old(g).deep_view(),
            nodes.deep_view(),
            sheet@,
            shared.deep_view(),
            styles.deep_view(),
        ),
{
    let ghost all = nodes.deep_view();
    let ghost start = old(g).deep_view();
    let merged = xml::all_named(nodes, "mergeCell");
    let ghost model = xml::ints(merged@);
    let mut i: usize = 0;
    while i < merged.len()
        invariant
            i <= merged.len(),
            all == nodes.deep_view(),
            model == xml::ints(merged@),
            forall|k: int| 0 <= k < merged@.len() ==> #[trigger] merged@[k] < nodes.len(),
            g.deep_view() == (Grid {
                merges: with_merges(start.merges, all, model.take(i as int), sheet@),
                ..start
            }),
        decreases merged.len() - i,
    {
        let at = merged[i];
        assert(model.take(i + 1).drop_last() == model.take(i as int));
        assert(model.take(i + 1).last() == at as int);
        assert(all[at as int] == nodes@[at as int].deep_view());
        match xml::attribute(&nodes[at], "ref") {
            Some(range) => add_merge(&mut g.merges, sheet, range),
            None => {},
        }
        i = i + 1;
    }
    assert(model.take(model.len() as int) == model);
    let ghost middle = g.deep_view();
    let list = xml::all_named(nodes, "c");
    let ghost places = xml::ints(list@);
    let mut j: usize = 0;
    while j < list.len()
        invariant
            j <= list.len(),
            all == nodes.deep_view(),
            places == xml::ints(list@),
            forall|k: int| 0 <= k < list@.len() ==> #[trigger] list@[k] < nodes.len(),
            g.deep_view() == with_cells(
                middle,
                all,
                places.take(j as int),
                sheet@,
                shared.deep_view(),
                styles.deep_view(),
            ),
        decreases list.len() - j,
    {
        let at = list[j];
        assert(places.take(j + 1).drop_last() == places.take(j as int));
        assert(places.take(j + 1).last() == at as int);
        add_cell(g, nodes, at, sheet, shared, styles);
        j = j + 1;
    }
    assert(places.take(places.len() as int) == places);
}

/// Reads a sheet's document into what the sheets hold; a text that is no document changes
/// nothing.
pub fn parse_sheet_xml(
    sheet_name: &str,
    s: &str,
    shared: &Vec<String>,
    styles: &Vec<String>,
    g: &mut Grid,
) -> (r: Result<(), ShadowError>)
    ensures
        (match package::nodes_of(s@) {
            Ok(nodes) => r is Ok && final(g).deep_view() == with_sheet(
                old(g).deep_view(),
                nodes,
                sheet_name@,
                shared.deep_view(),
                styles.deep_view(),
            ),
            Err(e) => crate::coord::outcome(r) == Fallible::<()>::Err(e) && final(g).deep_view()
                == old(g).deep_view(),
        }),
{
    match package::read_nodes(s) {
        Ok(nodes) => {
            add_sheet(g, &nodes, sheet_name, shared, styles);
            Ok(())
        },
        Err(e) => Err(e),
    }
}

// ----- Once each -----

/// Whether each cell with a formula is there once, and each cell that a formula depends on.
pub open spec fn formulas_once(s: FormulasModel) -> bool {
    &&& entries::distinct_keys(s)
    &&& forall|i: int| 0 <= i < s.len() ==> (#[trigger] s[i]).1.deps.no_duplicates()
}

pub proof fn lemma_put_formula_once(s: FormulasModel, k: Key<Seq<char>>, f: FormulaModel)
    requires
        formulas_once(s),
        f.deps.no_duplicates(),
    ensures
        formulas_once(entries::put(s, k, f)),
{
    entries::lemma_place(s, k);
    entries::law_get_after_put(s, k, f, k);
    let t = entries::put(s, k, f);
    assert forall|i: int| 0 <= i < t.len() implies (#[trigger] t[i]).1.deps.no_duplicates() by {
        if i < s.len() {
            assert(s[i].1.deps.no_duplicates());
        }
    }
}

impl GridModel {
    /// Whether nothing that the sheets hold is there twice.
    pub open spec fn once_each(self) -> bool {
        &&& entries::sets_once(self.merges)
        &&& entries::distinct_keys(self.cells)
        &&& formulas_once(self.formulas)
        &&& entries::distinct_keys(self.meta)
    }
}

proof fn lemma_merges_once(m: MergesModel, nodes: Nodes, list: Seq<int>, sheet: Seq<char>)
    requires
        entries::sets_once(m),
    ensures
        entries::sets_once(with_merges(m, nodes, list, sheet)),
    decreases list.len(),
{
    if list.len() > 0 {
        lemma_merges_once(m, nodes, list.drop_last(), sheet);
        let done = with_merges(m, nodes, list.drop_last(), sheet);
        if let Some(range) = xml::attr(nodes[list.last()], "ref"@) {
            lemma_merge_once(done, sheet, range);
        }
    }
}

/// Merged ranges stay sets when one is added.
pub proof fn lemma_merge_once(m: MergesModel, sheet: Seq<char>, range: Seq<char>)
    requires
        entries::sets_once(m),
    ensures
        entries::sets_once(with_merge(m, sheet, range)),
{
    let ranges = match entries::get(m, sheet) {
        Some(ranges) => ranges,
        None => Seq::empty(),
    };
    entries::lemma_put_set_once(m, sheet, entries::with(ranges, range));
    entries::law_sets_hold_members_once(ranges, range);
}

proof fn lemma_cell_once(
    g: GridModel,
    nodes: Nodes,
    i: int,
    sheet: Seq<char>,
    shared: Seq<Seq<char>>,
    styles: Seq<Seq<char>>,
)
    requires
        g.once_each(),
    ensures
        with_cell(g, nodes, i, sheet, shared, styles).once_each(),
{
    if let Some(t) = xml::attr(nodes[i], "r"@) {
        if let Some((col, row)) = coord::a1(t) {
            let k = coord::key(sheet, row, col);
            let value = node_value(nodes, i, shared);
            entries::law_get_after_put(g.cells, k, value, k);
            entries::law_get_after_put(g.meta, k, node_meta(nodes, i, k, value, styles), k);
            let f: FormulaModel = FormulaCell {
                formula: with_sign(xml::text_of_child(nodes, i, "f"@)),
                deps: Seq::empty(),
            };
            lemma_put_formula_once(g.formulas, k, f);
        }
    }
}

proof fn lemma_cells_once(
    g: GridModel,
    nodes: Nodes,
    list: Seq<int>,
    sheet: Seq<char>,
    shared: Seq<Seq<char>>,
    styles: Seq<Seq<char>>,
)
    requires
        g.once_each(),
    ensures
        with_cells(g, nodes, list, sheet, shared, styles).once_each(),
    decreases list.len(),
{
    if list.len() > 0 {
        lemma_cells_once(g, nodes, list.drop_last(), sheet, shared, styles);
        lemma_cell_once(
            with_cells(g, nodes, list.drop_last(), sheet, shared, styles),
            nodes,
            list.last(),
            sheet,
            shared,
            styles,
        );
    }
}

/// Reading a sheet enters nothing twice.
pub proof fn lemma_sheet_once(
    g: GridModel,
    nodes: Nodes,
    sheet: Seq<char>,
    shared: Seq<Seq<char>>,
    styles: Seq<Seq<char>>,
)
    requires
        g.once_each(),
    ensures
        with_sheet(g, nodes, sheet, shared, styles).once_each(),
{
    lemma_merges_once(g.merges, nodes, xml::named(nodes, "mergeCell"@), sheet);
    let merged = Grid {
        merges: with_merges(g.merges, nodes, xml::named(nodes, "mergeCell"@), sheet),
        ..g
    };
    lemma_cells_once(merged, nodes, xml::named(nodes, "c"@), sheet, shared, styles);
}

} // verus!
