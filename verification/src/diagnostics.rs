//! What is reported of a formula's dependencies: what was resolved and what was not.

use crate::coord;
use crate::coord::Key;
use crate::deps;
use crate::entries;
use crate::objects;
use crate::objects::{TableInfo, TableModel};
use crate::pattern;
use crate::records::DefinedName;
use crate::structured;
use crate::structured::Part;
use crate::text;
use vstd::prelude::*;
use vstd::string::*;

verus! {

/// A report entry: named texts, each name once.
pub type Fields = Vec<(String, String)>;

pub type FieldsModel = Seq<(Seq<char>, Seq<char>)>;

/// `base` with each of `more` put in turn.
pub open spec fn put_all(base: FieldsModel, more: FieldsModel) -> FieldsModel
    decreases more.len(),
{
    if more.len() == 0 {
        base
    } else {
        entries::put(put_all(base, more.drop_last()), more.last().0, more.last().1)
    }
}

pub fn add_fields(base: &mut Fields, more: &Fields)
    ensures
        final(base).deep_view() == put_all(old(base).deep_view(), more.deep_view()),
{
    let ghost all = more.deep_view();
    let ghost start = old(base).deep_view();
    let mut i: usize = 0;
    while i < more.len()
        invariant
            i <= more.len(),
            all == more.deep_view(),
            base.deep_view() == put_all(start, all.take(i as int)),
        decreases more.len() - i,
    {
        assert(all.take(i + 1).drop_last() == all.take(i as int));
        assert(all.take(i + 1).last() == more@[i as int].deep_view());
        entries::map_put(base, more[i].0.clone(), more[i].1.clone());
        i = i + 1;
    }
    assert(all.take(all.len() as int) == all);
}

/// A field with its value.
pub fn field(name: &str, value: &str) -> (r: (String, String))
    ensures
        r.deep_view() == (name@, value@),
{
    (name.to_owned(), value.to_owned())
}

pub open spec fn diagnostic(
    k: Key<Seq<char>>,
    formula: Seq<char>,
    severity: Seq<char>,
    code: Seq<char>,
    message: Seq<char>,
    fields: FieldsModel,
) -> FieldsModel {
    put_all(
        seq![
            ("severity"@, severity),
            ("code"@, code),
            ("sheet"@, k.sheet),
            ("row"@, text::decimal(k.row as nat)),
            ("col"@, text::decimal(k.col as nat)),
            ("cell"@, coord::a1_text(k.row, k.col)),
            ("formula"@, formula),
            ("message"@, message),
        ],
        fields,
    )
}

pub fn dependency_diagnostic(
    k: &Key,
    formula: &str,
    severity: &str,
    code: &str,
    message: &str,
    fields: &Fields,
) -> (r: Fields)
    ensures
        r.deep_view() == diagnostic(
            k.deep_view(),
            formula@,
            severity@,
            code@,
            message@,
            fields.deep_view(),
        ),
{
    let mut out: Fields = vec![
        field("severity", severity),
        field("code", code),
        field("sheet", &k.sheet),
        field("row", &text::size_text(k.row)),
        field("col", &text::size_text(k.col)),
        field("cell", &coord::cell_name(k.row, k.col)),
        field("formula", formula),
        field("message", message),
    ];
    assert(out.deep_view() == seq![
        ("severity"@, severity@),
        ("code"@, code@),
        ("sheet"@, k.deep_view().sheet),
        ("row"@, text::decimal(k.row as nat)),
        ("col"@, text::decimal(k.col as nat)),
        ("cell"@, coord::a1_text(k.row, k.col)),
        ("formula"@, formula@),
        ("message"@, message@),
    ]);
    add_fields(&mut out, fields);
    out
}


// ----- How a selector is resolved -----

pub open spec fn range_shape(part: Part) -> Seq<char> {
    match part {
        Part::Plain => "data_column_range_span"@,
        Part::Data => "data_column_range_span"@,
        Part::All => "full_table_column_range_span"@,
        Part::Headers => "header_column_range_cells"@,
        Part::Totals => "totals_column_range_cells"@,
    }
}

fn range_shape_text(part: Part) -> (r: &'static str)
    ensures
        r@ == range_shape(part),
{
    match part {
        Part::Plain => "data_column_range_span",
        Part::Data => "data_column_range_span",
        Part::All => "full_table_column_range_span",
        Part::Headers => "header_column_range_cells",
        Part::Totals => "totals_column_range_cells",
    }
}

pub open spec fn column_shape(part: Part) -> Seq<char> {
    match part {
        Part::Plain => "data_column_range"@,
        Part::Data => "data_column_range"@,
        Part::All => "full_table_column_range"@,
        Part::Headers => "header_column_cell"@,
        Part::Totals => "totals_column_cell"@,
    }
}

fn column_shape_text(part: Part) -> (r: &'static str)
    ensures
        r@ == column_shape(part),
{
    match part {
        Part::Plain => "data_column_range",
        Part::Data => "data_column_range",
        Part::All => "full_table_column_range",
        Part::Headers => "header_column_cell",
        Part::Totals => "totals_column_cell",
    }
}

pub open spec fn part_shape(part: Part) -> (Seq<char>, Seq<char>) {
    match part {
        Part::Plain => ("data"@, "data_body_range"@),
        Part::Data => ("data"@, "data_body_range"@),
        Part::All => ("all"@, "full_table_ref_range"@),
        Part::Headers => ("headers"@, "header_row_range"@),
        Part::Totals => ("totals"@, "totals_row_range"@),
    }
}

fn part_shape_texts(part: Part) -> (r: (&'static str, &'static str))
    ensures
        r.deep_view() == part_shape(part),
{
    match part {
        Part::Plain => ("data", "data_body_range"),
        Part::Data => ("data", "data_body_range"),
        Part::All => ("all", "full_table_ref_range"),
        Part::Headers => ("headers", "header_row_range"),
        Part::Totals => ("totals", "totals_row_range"),
    }
}

pub open spec fn has_column(t: TableModel, name: Seq<char>) -> bool {
    objects::column_index(t.columns, name) is Some
}

/// What kind of selector it is and which cells it takes.
pub open spec fn named_shape(given: Seq<char>) -> Option<(Seq<char>, Seq<char>)> {
    let selector = text::trim(given);
    match structured::whole_part(selector) {
        Some(part) => Some(part_shape(part)),
        None => if structured::simple_column(selector) is Some {
            Some(("column"@, "data_column_range"@))
        } else {
            match structured::column_range(selector) {
                Some((part, a, b)) => Some((structured::range_kind(part), range_shape(part))),
                None => match structured::qualified_column(selector) {
                    Some((part, column)) => Some(
                        (structured::column_kind(part), column_shape(part)),
                    ),
                    None => if structured::row_column(selector) is Some {
                        Some(("row_column"@, "current_table_row_column_cell"@))
                    } else {
                        None
                    },
                },
            }
        },
    }
}

/// The shape of a selector that is resolved: the table has the columns that it names, within
/// its last column, and the rows that it needs.
pub open spec fn selector_shape(t: TableModel, given: Seq<char>, k: Key<Seq<char>>) -> Option<
    (Seq<char>, Seq<char>),
> {
    if structured::selected_area(t, k, given) is Some {
        named_shape(given)
    } else {
        None
    }
}

fn named_shape_of(selector: &str) -> (r: Option<(&'static str, &'static str)>)
    ensures
        r.deep_view() == named_shape(selector@),
{
    let selector = text::trimmed(selector);
    match structured::whole_part_of(&selector) {
        Some(part) => return Some(part_shape_texts(part)),
        None => {},
    }
    if structured::simple_structured_column(&selector).is_some() {
        return Some(("column", "data_column_range"));
    }
    match structured::structured_column_range(&selector) {
        Some((part, a, b)) => return Some(
            (structured::range_kind_text(part), range_shape_text(part)),
        ),
        None => {},
    }
    match structured::structured_qualified_column(&selector) {
        Some((part, column)) => return Some(
            (structured::column_kind_text(part), column_shape_text(part)),
        ),
        None => {},
    }
    if structured::structured_row_scoped_column(&selector).is_some() {
        Some(("row_column", "current_table_row_column_cell"))
    } else {
        None
    }
}

pub fn structured_ref_dependency_shape(t: &TableInfo, selector: &str, k: &Key) -> (r: Option<
    (&'static str, &'static str),
>)
    ensures
        r.deep_view() == selector_shape(t.deep_view(), selector@, k.deep_view()),
{
    if structured::structured_ref_area(t, k, selector).is_some() {
        named_shape_of(selector)
    } else {
        None
    }
}

/// A selector's shape is reported as precise just where the selector is resolved to cells.
pub proof fn law_resolved_selectors_have_a_shape(t: TableModel, k: Key<Seq<char>>, selector: Seq<char>)
    ensures
        selector_shape(t, selector, k) is Some <==> structured::selected_area(t, k, selector) is Some,
{
}

// ----- Why a selector is not resolved -----

/// In a data row of another table than the one that is referred to.
pub open spec fn in_other_table(k: Key<Seq<char>>, t: TableModel, tables: Seq<TableModel>) -> bool {
    exists|i: int|
        0 <= i < tables.len() && !text::like((#[trigger] tables[i]).name, t.name)
            && structured::in_data_row(k, tables[i])
}

pub fn formula_cell_in_other_table_data_row(k: &Key, t: &TableInfo, tables: &Vec<TableInfo>) -> (r:
    bool)
    ensures
        r == in_other_table(k.deep_view(), t.deep_view(), tables.deep_view()),
{
    let mut i: usize = 0;
    while i < tables.len()
        invariant
            i <= tables.len(),
            forall|n: int|
                0 <= n < i ==> text::like((#[trigger] tables.deep_view()[n]).name, t.name@)
                    || !structured::in_data_row(k.deep_view(), tables.deep_view()[n]),
        decreases tables.len() - i,
    {
        assert(tables.deep_view()[i as int] == tables@[i as int].deep_view());
        if !text::eq_nocase(&tables[i].name, &t.name)
            && structured::formula_cell_in_table_data_row(k, &tables[i]) {
            return true;
        }
        i = i + 1;
    }
    false
}

/// How the formula's cell stands to the table of a selector of the formula's own row.
pub open spec fn row_scope(
    tables: Seq<TableModel>,
    t: TableModel,
    selector: Seq<char>,
    k: Key<Seq<char>>,
) -> Seq<char> {
    if structured::row_column(selector) is None {
        ""@
    } else if k.sheet != t.sheet {
        "formula_cell_not_on_table_sheet"@
    } else if structured::in_data_row(k, t) {
        "same_table_data_row"@
    } else if in_other_table(k, t, tables) {
        "formula_cell_in_different_table_data_row"@
    } else {
        "formula_cell_outside_table_data_body"@
    }
}

pub fn structured_row_scope_status(
    tables: &Vec<TableInfo>,
    t: &TableInfo,
    selector: &str,
    k: &Key,
) -> (r: &'static str)
    ensures
        r@ == row_scope(tables.deep_view(), t.deep_view(), selector@, k.deep_view()),
{
    if structured::structured_row_scoped_column(selector).is_none() {
        ""
    } else if k.sheet != t.sheet {
        "formula_cell_not_on_table_sheet"
    } else if structured::formula_cell_in_table_data_row(k, t) {
        "same_table_data_row"
    } else if formula_cell_in_other_table_data_row(k, t, tables) {
        "formula_cell_in_different_table_data_row"
    } else {
        "formula_cell_outside_table_data_body"
    }
}

/// Why a structured reference could not be resolved.
#[verifier::ext_equal]
pub struct StructuredRefBoundary<S = &'static str, M = Vec<String>> {
    pub code: S,
    pub message: S,
    pub not_completed: S,
    pub selector_kind: S,
    pub row_scope: S,
    pub missing_columns: M,
}

pub type BoundaryModel = StructuredRefBoundary<Seq<char>, Seq<Seq<char>>>;

impl DeepView for StructuredRefBoundary<&'static str, Vec<String>> {
    type V = StructuredRefBoundary<Seq<char>, Seq<Seq<char>>>;

    open spec fn deep_view(&self) -> BoundaryModel {
        StructuredRefBoundary {
            code: self.code@,
            message: self.message@,
            not_completed: self.not_completed@,
            selector_kind: self.selector_kind@,
            row_scope: self.row_scope@,
            missing_columns: self.missing_columns.deep_view(),
        }
    }
}

/// The names of `columns` that the table does not have.
pub open spec fn missing(t: TableModel, columns: Seq<Seq<char>>) -> Seq<Seq<char>>
    decreases columns.len(),
{
    if columns.len() == 0 {
        columns
    } else if has_column(t, columns.last()) {
        missing(t, columns.drop_last())
    } else {
        missing(t, columns.drop_last()).push(columns.last())
    }
}

pub fn missing_table_columns(t: &TableInfo, columns: &Vec<String>) -> (r: Vec<String>)
    ensures
        r.deep_view() == missing(t.deep_view(), columns.deep_view()),
{
    let ghost all = columns.deep_view();
    let mut out: Vec<String> = Vec::new();
    let mut i: usize = 0;
    assert(all.take(0) == Seq::<Seq<char>>::empty());
    while i < columns.len()
        invariant
            i <= columns.len(),
            all == columns.deep_view(),
            out.deep_view() == missing(t.deep_view(), all.take(i as int)),
        decreases columns.len() - i,
    {
        assert(all.take(i + 1).drop_last() == all.take(i as int));
        assert(all.take(i + 1).last() == columns@[i as int]@);
        if !t.has_column(&columns[i]) {
            let ghost done = out.deep_view();
            out.push(columns[i].clone());
            assert(out.deep_view() == done.push(all[i as int]));
        }
        i = i + 1;
    }
    assert(all.take(all.len() as int) == all);
    out
}

pub const UNKNOWN_COLUMN: &'static str = "Structured table reference named one or more columns that were not found in table metadata; dependency extraction used conservative coverage.";

pub const TOTALS_MISSING: &'static str = "Structured table totals selector could not be resolved because table totals-row metadata was not present; dependency extraction used conservative coverage.";

pub const ROW_SCOPE_MISMATCH: &'static str = "Structured table row-scoped selector could not be resolved for the formula cell's table context; dependency extraction used conservative coverage.";

pub const COMPLEX_SELECTOR: &'static str = "Structured table selector uses a complex shape that is not yet precisely supported; dependency extraction used conservative coverage.";

pub const UNSUPPORTED_SELECTOR: &'static str = "Structured table selector is not yet precisely supported; dependency extraction used conservative coverage.";

pub open spec fn unknown_column(
    kind: Seq<char>,
    scope: Seq<char>,
    lost: Seq<Seq<char>>,
) -> BoundaryModel {
    StructuredRefBoundary {
        code: "structured_table_ref_unknown_column"@,
        message: UNKNOWN_COLUMN@,
        not_completed: "structured_table_column_resolution"@,
        selector_kind: kind,
        row_scope: scope,
        missing_columns: lost,
    }
}

fn unknown_column_of(kind: &'static str, scope: &'static str, lost: Vec<String>) -> (r:
    StructuredRefBoundary)
    ensures
        r.deep_view() == unknown_column(kind@, scope@, lost.deep_view()),
{
    StructuredRefBoundary {
        code: "structured_table_ref_unknown_column",
        message: UNKNOWN_COLUMN,
        not_completed: "structured_table_column_resolution",
        selector_kind: kind,
        row_scope: scope,
        missing_columns: lost,
    }
}

pub fn unknown_column_boundary(
    t: &TableInfo,
    kind: &'static str,
    scope: &'static str,
    column: String,
) -> (r: StructuredRefBoundary)
    ensures
        r.deep_view() == unknown_column(kind@, scope@, missing(t.deep_view(), seq![column@])),
{
    let columns: Vec<String> = vec![column];
    assert(columns.deep_view() == seq![column@]);
    unknown_column_of(kind, scope, missing_table_columns(t, &columns))
}

pub open spec fn totals_missing(kind: Seq<char>, scope: Seq<char>) -> BoundaryModel {
    StructuredRefBoundary {
        code: "structured_table_ref_totals_metadata_missing"@,
        message: TOTALS_MISSING@,
        not_completed: "structured_table_totals_dependency_resolution"@,
        selector_kind: kind,
        row_scope: scope,
        missing_columns: Seq::empty(),
    }
}

pub fn totals_metadata_boundary(kind: &'static str, scope: &'static str) -> (r:
    StructuredRefBoundary)
    ensures
        r.deep_view() == totals_missing(kind@, scope@),
{
    StructuredRefBoundary {
        code: "structured_table_ref_totals_metadata_missing",
        message: TOTALS_MISSING,
        not_completed: "structured_table_totals_dependency_resolution",
        selector_kind: kind,
        row_scope: scope,
        missing_columns: Vec::new(),
    }
}

pub open spec fn row_mismatch(scope: Seq<char>) -> BoundaryModel {
    StructuredRefBoundary {
        code: "structured_table_ref_row_scope_mismatch"@,
        message: ROW_SCOPE_MISMATCH@,
        not_completed: "row_scoped_structured_table_dependency_resolution"@,
        selector_kind: "row_column"@,
        row_scope: scope,
        missing_columns: Seq::empty(),
    }
}

pub open spec fn not_supported(complex: bool, scope: Seq<char>) -> BoundaryModel {
    if complex {
        StructuredRefBoundary {
            code: "structured_table_ref_complex_selector"@,
            message: COMPLEX_SELECTOR@,
            not_completed: "complex_structured_table_selector_resolution"@,
            selector_kind: "complex_selector"@,
            row_scope: scope,
            missing_columns: Seq::empty(),
        }
    } else {
        StructuredRefBoundary {
            code: "structured_table_ref_unsupported_selector"@,
            message: UNSUPPORTED_SELECTOR@,
            not_completed: "precise_structured_table_dependency_resolution"@,
            selector_kind: "unsupported_selector"@,
            row_scope: scope,
            missing_columns: Seq::empty(),
        }
    }
}

/// A selector of several parts, or of a part and a range.
pub open spec fn is_complex(selector: Seq<char>) -> bool {
    let lower = text::lower(selector);
    text::count_from(lower, "],["@, 0) > 1 || (text::contains(lower, "[#"@) && text::contains(
        lower,
        ":"@,
    ))
}

/// What remains to be said where no column of the selector explains it.
pub open spec fn last_boundary(selector: Seq<char>, scope: Seq<char>) -> BoundaryModel {
    if text::like(text::trim(selector), "[#Totals]"@) {
        totals_missing("totals"@, scope)
    } else {
        not_supported(is_complex(selector), scope)
    }
}

fn last_boundary_of(selector: &str, scope: &'static str) -> (r: StructuredRefBoundary)
    ensures
        r.deep_view() == last_boundary(selector@, scope@),
{
    if text::eq_nocase(&text::trimmed(selector), "[#Totals]") {
        return totals_metadata_boundary("totals", scope);
    }
    let lower = text::to_lower(selector);
    if text::occurs_twice(&lower, "],[") || (text::has(&lower, "[#") && text::has(&lower, ":")) {
        StructuredRefBoundary {
            code: "structured_table_ref_complex_selector",
            message: COMPLEX_SELECTOR,
            not_completed: "complex_structured_table_selector_resolution",
            selector_kind: "complex_selector",
            row_scope: scope,
            missing_columns: Vec::new(),
        }
    } else {
        StructuredRefBoundary {
            code: "structured_table_ref_unsupported_selector",
            message: UNSUPPORTED_SELECTOR,
            not_completed: "precise_structured_table_dependency_resolution",
            selector_kind: "unsupported_selector",
            row_scope: scope,
            missing_columns: Vec::new(),
        }
    }
}

/// The boundary where neither a plain column nor a range of columns explains it.
pub open spec fn column_boundary(t: TableModel, selector: Seq<char>, scope: Seq<char>) -> BoundaryModel {
    let rest = match structured::row_column(selector) {
        Some(column) => if !has_column(t, column) {
            unknown_column("row_column"@, scope, missing(t, seq![column]))
        } else {
            row_mismatch(scope)
        },
        None => last_boundary(selector, scope),
    };
    match structured::qualified_column(selector) {
        Some((part, column)) => if !has_column(t, column) {
            unknown_column(structured::column_kind(part), scope, missing(t, seq![column]))
        } else if part == Part::Totals && t.totals_row is None {
            totals_missing(structured::column_kind(part), scope)
        } else {
            rest
        },
        None => rest,
    }
}

fn column_boundary_of(t: &TableInfo, selector: &str, scope: &'static str) -> (r:
    StructuredRefBoundary)
    ensures
        r.deep_view() == column_boundary(t.deep_view(), selector@, scope@),
{
    match structured::structured_qualified_column(selector) {
        Some((part, column)) => {
            if !t.has_column(&column) {
                return unknown_column_boundary(
                    t,
                    structured::column_kind_text(part),
                    scope,
                    column,
                );
            }
            if part == Part::Totals && t.totals_row.is_none() {
                return totals_metadata_boundary(structured::column_kind_text(part), scope);
            }
        },
        None => {},
    }
    match structured::structured_row_scoped_column(selector) {
        Some(column) => {
            if !t.has_column(&column) {
                unknown_column_boundary(t, "row_column", scope, column)
            } else {
                StructuredRefBoundary {
                    code: "structured_table_ref_row_scope_mismatch",
                    message: ROW_SCOPE_MISMATCH,
                    not_completed: "row_scoped_structured_table_dependency_resolution",
                    selector_kind: "row_column",
                    row_scope: scope,
                    missing_columns: Vec::new(),
                }
            }
        },
        None => last_boundary_of(selector, scope),
    }
}

pub open spec fn boundary(
    tables: Seq<TableModel>,
    t: TableModel,
    selector: Seq<char>,
    k: Key<Seq<char>>,
) -> BoundaryModel {
    let scope = row_scope(tables, t, selector, k);
    match structured::simple_column(selector) {
        Some(column) => unknown_column("column"@, scope, missing(t, seq![column])),
        None => match structured::column_range(selector) {
            Some((part, a, b)) => {
                let lost = missing(t, seq![a, b]);
                if lost.len() > 0 {
                    unknown_column(structured::range_kind(part), scope, lost)
                } else if part == Part::Totals && t.totals_row is None {
                    totals_missing(structured::range_kind(part), scope)
                } else {
                    column_boundary(t, selector, scope)
                }
            },
            None => column_boundary(t, selector, scope),
        },
    }
}

pub fn structured_ref_boundary(
    tables: &Vec<TableInfo>,
    t: &TableInfo,
    selector: &str,
    k: &Key,
) -> (r: StructuredRefBoundary)
    ensures
        r.deep_view() == boundary(tables.deep_view(), t.deep_view(), selector@, k.deep_view()),
{
    let scope = structured_row_scope_status(tables, t, selector, k);
    match structured::simple_structured_column(selector) {
        Some(column) => return unknown_column_boundary(t, "column", scope, column),
        None => {},
    }
    match structured::structured_column_range(selector) {
        Some((part, a, b)) => {
            let columns: Vec<String> = vec![a, b];
            assert(columns.deep_view() == seq![a@, b@]);
            let lost = missing_table_columns(t, &columns);
            if lost.len() > 0 {
                return unknown_column_of(structured::range_kind_text(part), scope, lost);
            }
            if part == Part::Totals && t.totals_row.is_none() {
                return totals_metadata_boundary(structured::range_kind_text(part), scope);
            }
        },
        None => {},
    }
    column_boundary_of(t, selector, scope)
}

/// A range of columns written from right to left.
pub open spec fn reverse_range(t: TableModel, selector: Seq<char>) -> Option<
    (Part, Seq<char>, Seq<char>),
> {
    match structured::column_range(selector) {
        Some((part, a, b)) => match (
            objects::column_index(t.columns, a),
            objects::column_index(t.columns, b),
        ) {
            (Some(i), Some(j)) => if i > j {
                Some((part, a, b))
            } else {
                None
            },
            _ => None,
        },
        None => None,
    }
}

pub fn structured_reverse_column_range(t: &TableInfo, selector: &str) -> (r: Option<
    (Part, String, String),
>)
    ensures
        structured::range_view(r) == reverse_range(t.deep_view(), selector@),
{
    match structured::structured_column_range(selector) {
        Some((part, a, b)) => match (t.column_offset(&a), t.column_offset(&b)) {
            (Some(i), Some(j)) => if i > j {
                Some((part, a, b))
            } else {
                None
            },
            _ => None,
        },
        None => None,
    }
}


// ----- The reports -----

pub type ReportModel = Seq<FieldsModel>;

pub const TABLE_NOT_FOUND: &'static str = "Structured table metadata was not found; dependency extraction used conservative coverage.";

pub const TABLE_PRECISE: &'static str = "Structured table reference dependencies were resolved from table metadata.";

pub const REVERSE_RANGE: &'static str = "Structured table column range was written in reverse order; dependency extraction normalized it to the contiguous table column span.";

pub const PARSE_FALLBACK: &'static str = "Structured table reference syntax could not be parsed precisely.";

/// The report of a reference to a table that is not known.
pub open spec fn unknown_table_report(
    k: Key<Seq<char>>,
    formula: Seq<char>,
    table: Seq<char>,
    selector: Seq<char>,
    count: Seq<char>,
) -> FieldsModel {
    diagnostic(
        k,
        formula,
        "warning"@,
        "structured_table_ref_table_not_found"@,
        TABLE_NOT_FOUND@,
        seq![
            ("table"@, table),
            ("selector"@, selector),
            ("not_completed"@, "structured_table_metadata_lookup"@),
            ("fallback"@, "all_current_non_formula_workbook_cells"@),
            ("fallback_dep_count"@, count),
        ],
    )
}

fn report_unknown_table(
    k: &Key,
    formula: &str,
    table: &str,
    selector: &str,
    count: &str,
) -> (r: Fields)
    ensures
        r.deep_view() == unknown_table_report(k.deep_view(), formula@, table@, selector@, count@),
{
    let fields: Fields = vec![
        field("table", table),
        field("selector", selector),
        field("not_completed", "structured_table_metadata_lookup"),
        field("fallback", "all_current_non_formula_workbook_cells"),
        field("fallback_dep_count", count),
    ];
    assert(fields.deep_view() == seq![
        ("table"@, table@),
        ("selector"@, selector@),
        ("not_completed"@, "structured_table_metadata_lookup"@),
        ("fallback"@, "all_current_non_formula_workbook_cells"@),
        ("fallback_dep_count"@, count@),
    ]);
    dependency_diagnostic(
        k,
        formula,
        "warning",
        "structured_table_ref_table_not_found",
        TABLE_NOT_FOUND,
        &fields,
    )
}

/// The report of a reference that is resolved.
pub open spec fn precise_report(
    k: Key<Seq<char>>,
    formula: Seq<char>,
    table: Seq<char>,
    selector: Seq<char>,
    shape: (Seq<char>, Seq<char>),
    scope: Seq<char>,
) -> FieldsModel {
    diagnostic(
        k,
        formula,
        "info"@,
        "structured_table_ref_precise"@,
        TABLE_PRECISE@,
        seq![
            ("table"@, table),
            ("selector"@, selector),
            ("selector_kind"@, shape.0),
            ("dependency_shape"@, shape.1),
            ("row_scope"@, scope),
            ("completed"@, "precise_structured_table_dependency_resolution"@),
        ],
    )
}

fn report_precise(
    k: &Key,
    formula: &str,
    table: &str,
    selector: &str,
    shape: (&str, &str),
    scope: &str,
) -> (r: Fields)
    ensures
        r.deep_view() == precise_report(
            k.deep_view(),
            formula@,
            table@,
            selector@,
            shape.deep_view(),
            scope@,
        ),
{
    let fields: Fields = vec![
        field("table", table),
        field("selector", selector),
        field("selector_kind", shape.0),
        field("dependency_shape", shape.1),
        field("row_scope", scope),
        field("completed", "precise_structured_table_dependency_resolution"),
    ];
    assert(fields.deep_view() == seq![
        ("table"@, table@),
        ("selector"@, selector@),
        ("selector_kind"@, shape.deep_view().0),
        ("dependency_shape"@, shape.deep_view().1),
        ("row_scope"@, scope@),
        ("completed"@, "precise_structured_table_dependency_resolution"@),
    ]);
    dependency_diagnostic(
        k,
        formula,
        "info",
        "structured_table_ref_precise",
        TABLE_PRECISE,
        &fields,
    )
}

/// The report of a range of columns written from right to left.
pub open spec fn reverse_report(
    k: Key<Seq<char>>,
    formula: Seq<char>,
    table: Seq<char>,
    selector: Seq<char>,
    range: (Part, Seq<char>, Seq<char>),
) -> FieldsModel {
    diagnostic(
        k,
        formula,
        "warning"@,
        "structured_table_ref_reverse_column_range"@,
        REVERSE_RANGE@,
        seq![
            ("table"@, table),
            ("selector"@, selector),
            ("selector_kind"@, structured::range_kind(range.0)),
            ("start_column"@, range.1),
            ("end_column"@, range.2),
            ("not_completed"@, "structured_table_reverse_column_order_semantics"@),
            ("fallback"@, "normalized_contiguous_column_span"@),
        ],
    )
}

fn report_reverse(
    k: &Key,
    formula: &str,
    table: &str,
    selector: &str,
    part: Part,
    first: &str,
    last: &str,
) -> (r: Fields)
    ensures
        r.deep_view() == reverse_report(
            k.deep_view(),
            formula@,
            table@,
            selector@,
            (part, first@, last@),
        ),
{
    let fields: Fields = vec![
        field("table", table),
        field("selector", selector),
        field("selector_kind", structured::range_kind_text(part)),
        field("start_column", first),
        field("end_column", last),
        field("not_completed", "structured_table_reverse_column_order_semantics"),
        field("fallback", "normalized_contiguous_column_span"),
    ];
    assert(fields.deep_view() == seq![
        ("table"@, table@),
        ("selector"@, selector@),
        ("selector_kind"@, structured::range_kind(part)),
        ("start_column"@, first@),
        ("end_column"@, last@),
        ("not_completed"@, "structured_table_reverse_column_order_semantics"@),
        ("fallback"@, "normalized_contiguous_column_span"@),
    ]);
    dependency_diagnostic(
        k,
        formula,
        "warning",
        "structured_table_ref_reverse_column_range",
        REVERSE_RANGE,
        &fields,
    )
}

pub open spec fn data_rows_text(t: TableModel) -> Seq<char> {
    text::decimal(t.first_data_row() as nat) + ":"@ + text::decimal(t.last_data_row() as nat)
}

/// The report of a reference that is not resolved.
pub open spec fn boundary_report(
    k: Key<Seq<char>>,
    formula: Seq<char>,
    table: Seq<char>,
    selector: Seq<char>,
    t: TableModel,
    b: BoundaryModel,
    count: Seq<char>,
) -> FieldsModel {
    diagnostic(
        k,
        formula,
        "warning"@,
        b.code,
        b.message,
        seq![
            ("table"@, table),
            ("selector"@, selector),
            ("not_completed"@, b.not_completed),
            ("selector_kind"@, b.selector_kind),
            ("row_scope"@, b.row_scope),
            ("missing_columns"@, text::joined(b.missing_columns, ","@)),
            ("table_data_rows"@, data_rows_text(t)),
            ("fallback"@, "all_current_non_formula_workbook_cells"@),
            ("fallback_dep_count"@, count),
        ],
    )
}

fn report_boundary(
    k: &Key,
    formula: &str,
    table: &str,
    selector: &str,
    t: &TableInfo,
    b: &StructuredRefBoundary,
    count: &str,
) -> (r: Fields)
    ensures
        r.deep_view() == boundary_report(
            k.deep_view(),
            formula@,
            table@,
            selector@,
            t.deep_view(),
            b.deep_view(),
            count@,
        ),
{
    let mut rows = text::size_text(t.data_start_row());
    rows.append(":");
    rows.append(&text::size_text(t.data_end_row()));
    let fields: Fields = vec![
        field("table", table),
        field("selector", selector),
        field("not_completed", b.not_completed),
        field("selector_kind", b.selector_kind),
        field("row_scope", b.row_scope),
        field("missing_columns", &text::join(&b.missing_columns, ",")),
        field("table_data_rows", &rows),
        field("fallback", "all_current_non_formula_workbook_cells"),
        field("fallback_dep_count", count),
    ];
    assert(fields.deep_view() == seq![
        ("table"@, table@),
        ("selector"@, selector@),
        ("not_completed"@, b.deep_view().not_completed),
        ("selector_kind"@, b.deep_view().selector_kind),
        ("row_scope"@, b.deep_view().row_scope),
        ("missing_columns"@, text::joined(b.deep_view().missing_columns, ","@)),
        ("table_data_rows"@, data_rows_text(t.deep_view())),
        ("fallback"@, "all_current_non_formula_workbook_cells"@),
        ("fallback_dep_count"@, count@),
    ]);
    dependency_diagnostic(k, formula, "warning", b.code, b.message, &fields)
}

/// The reports of one structured reference.
pub open spec fn ref_reports(
    k: Key<Seq<char>>,
    formula: Seq<char>,
    spec: (Seq<char>, Seq<char>),
    tables: Seq<TableModel>,
    count: Seq<char>,
) -> ReportModel {
    let (table, selector) = spec;
    match deps::table_from(tables, table, 0) {
        None => seq![unknown_table_report(k, formula, table, selector, count)],
        Some(i) => match selector_shape(tables[i], selector, k) {
            Some(shape) => {
                let first = precise_report(
                    k,
                    formula,
                    table,
                    selector,
                    shape,
                    row_scope(tables, tables[i], selector, k),
                );
                match reverse_range(tables[i], selector) {
                    Some(range) => seq![first, reverse_report(k, formula, table, selector, range)],
                    None => seq![first],
                }
            },
            None => seq![
                boundary_report(
                    k,
                    formula,
                    table,
                    selector,
                    tables[i],
                    boundary(tables, tables[i], selector, k),
                    count,
                ),
            ],
        },
    }
}

/// The reports of one structured reference, given its table name and selector.
pub fn report_structured_ref(
    k: &Key,
    formula: &str,
    table: &str,
    selector: &str,
    tables: &Vec<TableInfo>,
    count: &str,
) -> (r: Vec<Fields>)
    ensures
        r.deep_view() == ref_reports(
            k.deep_view(),
            formula@,
            (table@, selector@),
            tables.deep_view(),
            count@,
        ),
{
    let ghost expected = ref_reports(
        k.deep_view(),
        formula@,
        (table@, selector@),
        tables.deep_view(),
        count@,
    );
    let i = match deps::find_table(tables, table) {
        Some(i) => i,
        None => {
            let out: Vec<Fields> = vec![report_unknown_table(k, formula, table, selector, count)];
            assert(out.deep_view() == expected);
            return out;
        },
    };
    assert(tables.deep_view()[i as int] == tables@[i as int].deep_view());
    let t = &tables[i];
    match structured_ref_dependency_shape(t, selector, k) {
        Some(shape) => {
            let scope = structured_row_scope_status(tables, t, selector, k);
            let first = report_precise(k, formula, table, selector, shape, scope);
            match structured_reverse_column_range(t, selector) {
                Some((part, a, b)) => {
                    let second = report_reverse(k, formula, table, selector, part, &a, &b);
                    let out: Vec<Fields> = vec![first, second];
                    assert(out.deep_view() == expected);
                    out
                },
                None => {
                    let out: Vec<Fields> = vec![first];
                    assert(out.deep_view() == expected);
                    out
                },
            }
        },
        None => {
            let b = structured_ref_boundary(tables, t, selector, k);
            let out: Vec<Fields> = vec![
                report_boundary(k, formula, table, selector, t, &b, count),
            ];
            assert(out.deep_view() == expected);
            out
        },
    }
}

pub open spec fn specs_reports(
    k: Key<Seq<char>>,
    formula: Seq<char>,
    specs: Seq<(Seq<char>, Seq<char>)>,
    tables: Seq<TableModel>,
    count: Seq<char>,
) -> ReportModel
    decreases specs.len(),
{
    if specs.len() == 0 {
        Seq::empty()
    } else {
        specs_reports(k, formula, specs.drop_last(), tables, count) + ref_reports(
            k,
            formula,
            specs.last(),
            tables,
            count,
        )
    }
}

/// Adds the members of a list of reports.
pub fn add_reports(out: &mut Vec<Fields>, more: Vec<Fields>)
    ensures
        final(out).deep_view() == old(out).deep_view() + more.deep_view(),
{
    let ghost added = more.deep_view();
    let mut more = more;
    out.append(&mut more);
    assert(out.deep_view() == old(out).deep_view() + added);
}

pub open spec fn fallback_report(k: Key<Seq<char>>, formula: Seq<char>, count: Seq<char>) -> FieldsModel {
    diagnostic(
        k,
        formula,
        "warning"@,
        "structured_table_ref_parse_fallback"@,
        PARSE_FALLBACK@,
        seq![
            ("not_completed"@, "precise_structured_table_dependency_resolution"@),
            ("fallback"@, "all_current_non_formula_workbook_cells"@),
            ("fallback_dep_count"@, count),
        ],
    )
}

fn report_fallback(k: &Key, formula: &str, count: &str) -> (r: Fields)
    ensures
        r.deep_view() == fallback_report(k.deep_view(), formula@, count@),
{
    let fields: Fields = vec![
        field("not_completed", "precise_structured_table_dependency_resolution"),
        field("fallback", "all_current_non_formula_workbook_cells"),
        field("fallback_dep_count", count),
    ];
    assert(fields.deep_view() == seq![
        ("not_completed"@, "precise_structured_table_dependency_resolution"@),
        ("fallback"@, "all_current_non_formula_workbook_cells"@),
        ("fallback_dep_count"@, count@),
    ]);
    dependency_diagnostic(
        k,
        formula,
        "warning",
        "structured_table_ref_parse_fallback",
        PARSE_FALLBACK,
        &fields,
    )
}

/// The reports of a formula's structured references; `bare` is the formula without
/// literals.
pub open spec fn structured_reports(
    k: Key<Seq<char>>,
    formula: Seq<char>,
    bare: Seq<char>,
    cells: deps::CellsModel,
    formula_keys: Seq<Key<Seq<char>>>,
    tables: Seq<TableModel>,
) -> ReportModel {
    let count = text::decimal(deps::plain_cells(cells, formula_keys).len());
    if pattern::first_match(structured::STRUCTURED_PATTERN@, bare) is None {
        Seq::empty()
    } else {
        match structured::ref_specs(bare) {
            Some(specs) => specs_reports(k, formula, specs, tables, count),
            None => seq![fallback_report(k, formula, count)],
        }
    }
}

pub fn structured_ref_diagnostics(
    k: &Key,
    formula: &str,
    bare: &str,
    cells: &Vec<(Key, String)>,
    formula_keys: &Vec<Key>,
    tables: &Vec<TableInfo>,
) -> (r: Vec<Fields>)
    ensures
        r.deep_view() == structured_reports(
            k.deep_view(),
            formula@,
            bare@,
            cells.deep_view(),
            formula_keys.deep_view(),
            tables.deep_view(),
        ),
{
    let mut out: Vec<Fields> = Vec::new();
    assert(out.deep_view() == Seq::<FieldsModel>::empty());
    if !structured::has_structured_table_ref(bare) {
        return out;
    }
    let free = deps::non_formula_cells(cells, formula_keys);
    assert(free.deep_view().len() == free.len());
    let count = text::size_text(free.len());
    let specs = match structured::structured_ref_specs(bare) {
        Some(specs) => specs,
        None => {
            let one = report_fallback(k, formula, &count);
            out.push(one);
            assert(out.deep_view() == seq![one.deep_view()]);
            return out;
        },
    };
    let ghost all = specs.deep_view();
    let mut i: usize = 0;
    while i < specs.len()
        invariant
            i <= specs.len(),
            all == specs.deep_view(),
            out.deep_view() == specs_reports(
                k.deep_view(),
                formula@,
                all.take(i as int),
                tables.deep_view(),
                count@,
            ),
        decreases specs.len() - i,
    {
        assert(all.take(i + 1).drop_last() == all.take(i as int));
        assert(all.take(i + 1).last() == specs@[i as int].deep_view());
        let more = report_structured_ref(k, formula, &specs[i].0, &specs[i].1, tables, &count);
        add_reports(&mut out, more);
        i = i + 1;
    }
    assert(all.take(all.len() as int) == all);
    out
}

proof fn lemma_put_all(base: FieldsModel, fields: FieldsModel, name: Seq<char>)
    ensures
        entries::get(put_all(base, fields), name) == match entries::get(fields, name) {
            Some(value) => Some(value),
            None => entries::get(base, name),
        },
    decreases fields.len(),
{
    if fields.len() > 0 {
        lemma_put_all(base, fields.drop_last(), name);
        let (k, v) = fields.last();
        entries::law_get_after_put(put_all(base, fields.drop_last()), k, v, name);
        entries::lemma_place(fields.drop_last(), name);
    }
}

proof fn lemma_only_entry(s: FieldsModel, i: int, name: Seq<char>)
    requires
        0 <= i < s.len(),
        s[i].0 == name,
        forall|j: int| 0 <= j < s.len() && j != i ==> (#[trigger] s[j]).0 != name,
    ensures
        entries::get(s, name) == Some(s[i].1),
{
    entries::lemma_place(s, name);
}

/// What a report says of how grave it is, of what it is about, and of what was taken in the
/// place of cells that were not resolved, where its further fields say the latter in place
/// `i`.
proof fn lemma_warning_is_shown(
    k: Key<Seq<char>>,
    formula: Seq<char>,
    code: Seq<char>,
    message: Seq<char>,
    fields: FieldsModel,
    i: int,
)
    requires
        0 <= i < fields.len(),
        fields[i].0 == "fallback"@,
        forall|j: int| 0 <= j < fields.len() ==> (#[trigger] fields[j]).0 != "severity"@,
        forall|j: int| 0 <= j < fields.len() ==> (#[trigger] fields[j]).0 != "code"@,
        forall|j: int| 0 <= j < fields.len() && j != i ==> (#[trigger] fields[j]).0 != "fallback"@,
    ensures
        ({
            let report = diagnostic(k, formula, "warning"@, code, message, fields);
            &&& entries::get(report, "severity"@) == Some("warning"@)
            &&& entries::get(report, "code"@) == Some(code)
            &&& entries::get(report, "fallback"@) == Some(fields[i].1)
        }),
{
    let base = seq![
        ("severity"@, "warning"@),
        ("code"@, code),
        ("sheet"@, k.sheet),
        ("row"@, text::decimal(k.row as nat)),
        ("col"@, text::decimal(k.col as nat)),
        ("cell"@, coord::a1_text(k.row, k.col)),
        ("formula"@, formula),
        ("message"@, message),
    ];
    reveal_strlit("severity");
    reveal_strlit("code");
    reveal_strlit("sheet");
    reveal_strlit("row");
    reveal_strlit("col");
    reveal_strlit("cell");
    reveal_strlit("formula");
    reveal_strlit("message");
    reveal_strlit("fallback");
    assert("severity"@[0] != "fallback"@[0]);
    assert forall|j: int| 0 <= j < base.len() && j != 0 implies (#[trigger] base[j]).0
        != "severity"@ by {
        assert(j == 1 || j == 2 || j == 3 || j == 4 || j == 5 || j == 6 || j == 7);
        assert(base[j].0.len() != "severity"@.len());
    }
    assert("cell"@[1] != "code"@[1]);
    assert forall|j: int| 0 <= j < base.len() && j != 1 implies (#[trigger] base[j]).0
        != "code"@ by {
        assert(j == 0 || j == 2 || j == 3 || j == 4 || j == 5 || j == 6 || j == 7);
        assert(base[j].0.len() != "code"@.len() || base[j].0 == "cell"@);
    }
    lemma_only_entry(base, 0, "severity"@);
    lemma_only_entry(base, 1, "code"@);
    lemma_only_entry(fields, i, "fallback"@);
    entries::lemma_place(fields, "severity"@);
    entries::lemma_place(fields, "code"@);
    lemma_put_all(base, fields, "code"@);
    lemma_put_all(base, fields, "severity"@);
    lemma_put_all(base, fields, "fallback"@);
}

/// A reference that is not resolved to cells of its table gets one report: a warning that
/// names what was taken in its place.
pub proof fn law_unresolved_references_are_warned_of(
    k: Key<Seq<char>>,
    formula: Seq<char>,
    spec: (Seq<char>, Seq<char>),
    tables: Seq<TableModel>,
    count: Seq<char>,
)
    requires
        match deps::table_from(tables, spec.0, 0) {
            Some(i) => structured::selected_area(tables[i], k, spec.1) is None,
            None => true,
        },
    ensures
        ({
            let reports = ref_reports(k, formula, spec, tables, count);
            &&& reports.len() == 1
            &&& entries::get(reports[0], "severity"@) == Some("warning"@)
            &&& deps::table_from(tables, spec.0, 0) matches Some(i) ==> entries::get(
                reports[0],
                "code"@,
            ) == Some(boundary(tables, tables[i], spec.1, k).code)
            &&& entries::get(reports[0], "fallback"@) == Some(
                "all_current_non_formula_workbook_cells"@,
            )
        }),
{
    reveal_strlit("severity");
    reveal_strlit("code");
    reveal_strlit("fallback");
    reveal_strlit("table");
    reveal_strlit("selector");
    reveal_strlit("not_completed");
    reveal_strlit("selector_kind");
    reveal_strlit("row_scope");
    reveal_strlit("missing_columns");
    reveal_strlit("table_data_rows");
    reveal_strlit("fallback_dep_count");
    assert("selector"@[2] != "severity"@[2]);
    assert("selector"@[0] != "fallback"@[0]);
    let (table, selector) = spec;
    match deps::table_from(tables, table, 0) {
        None => {
            let fields = seq![
                ("table"@, table),
                ("selector"@, selector),
                ("not_completed"@, "structured_table_metadata_lookup"@),
                ("fallback"@, "all_current_non_formula_workbook_cells"@),
                ("fallback_dep_count"@, count),
            ];
            assert forall|j: int| 0 <= j < fields.len() && j != 3 implies (#[trigger] fields[j]).0
                != "fallback"@ by {
                assert(j == 0 || j == 1 || j == 2 || j == 4);
                assert(fields[j].0.len() != "fallback"@.len() || fields[j].0 == "selector"@);
            }
            assert forall|j: int| 0 <= j < fields.len() implies (#[trigger] fields[j]).0
                != "code"@ by {
                assert(j == 0 || j == 1 || j == 2 || j == 3 || j == 4);
                assert(fields[j].0.len() > "code"@.len());
            }
            lemma_warning_is_shown(
                k,
                formula,
                "structured_table_ref_table_not_found"@,
                TABLE_NOT_FOUND@,
                fields,
                3,
            );
        },
        Some(i) => {
            let b = boundary(tables, tables[i], selector, k);
            let fields = seq![
                ("table"@, table),
                ("selector"@, selector),
                ("not_completed"@, b.not_completed),
                ("selector_kind"@, b.selector_kind),
                ("row_scope"@, b.row_scope),
                ("missing_columns"@, text::joined(b.missing_columns, ","@)),
                ("table_data_rows"@, data_rows_text(tables[i])),
                ("fallback"@, "all_current_non_formula_workbook_cells"@),
                ("fallback_dep_count"@, count),
            ];
            assert forall|j: int| 0 <= j < fields.len() && j != 7 implies (#[trigger] fields[j]).0
                != "fallback"@ by {
                assert(j == 0 || j == 1 || j == 2 || j == 3 || j == 4 || j == 5 || j == 6 || j
                    == 8);
                assert(fields[j].0.len() != "fallback"@.len() || fields[j].0 == "selector"@);
            }
            assert forall|j: int| 0 <= j < fields.len() implies (#[trigger] fields[j]).0
                != "code"@ by {
                assert(j == 0 || j == 1 || j == 2 || j == 3 || j == 4 || j == 5 || j == 6 || j
                    == 7 || j == 8);
                assert(fields[j].0.len() > "code"@.len());
            }
            lemma_warning_is_shown(k, formula, b.code, b.message, fields, 7);
        },
    }
}

/// A part of the totals of a table without totals, of columns that the table has, is reported
/// as missing its totals.
pub proof fn law_missing_totals_are_reported(
    k: Key<Seq<char>>,
    formula: Seq<char>,
    spec: (Seq<char>, Seq<char>),
    tables: Seq<TableModel>,
    count: Seq<char>,
)
    requires
        deps::table_from(tables, spec.0, 0) matches Some(i) && tables[i].totals_row is None && {
            let t = tables[i];
            let s = spec.1;
            &&& text::trim(s) == s
            &&& structured::simple_column(s) is None
            &&& structured::whole_part(s) is None
            &&& match structured::column_range(s) {
                Some((part, a, b)) => part == Part::Totals && has_column(t, a) && has_column(t, b),
                None => structured::qualified_column(s) matches Some((part, column)) && part
                    == Part::Totals && has_column(t, column),
            }
        },
    ensures
        ({
            let reports = ref_reports(k, formula, spec, tables, count);
            &&& reports.len() == 1
            &&& entries::get(reports[0], "severity"@) == Some("warning"@)
            &&& entries::get(reports[0], "code"@) == Some(
                "structured_table_ref_totals_metadata_missing"@,
            )
            &&& entries::get(reports[0], "fallback"@) == Some(
                "all_current_non_formula_workbook_cells"@,
            )
        }),
{
    let i = deps::table_from(tables, spec.0, 0)->Some_0;
    let t = tables[i];
    assert(structured::selected_area(t, k, spec.1) is None);
    law_unresolved_references_are_warned_of(k, formula, spec, tables, count);
    if let Some((part, a, b)) = structured::column_range(spec.1) {
        let columns = seq![a, b];
        assert(columns.drop_last() == seq![a]);
        assert(columns.drop_last().drop_last() == Seq::<Seq<char>>::empty());
        reveal_with_fuel(missing, 3);
        assert(missing(t, columns).len() == 0);
    }
}

// ----- Defined names and other workbooks -----

pub const NAME_UNSUPPORTED: &'static str = "Defined name target did not resolve to simple local dependency ranges.";

pub const NAME_EXPANDED: &'static str = "Defined name target was expanded into dependency edges.";

pub const EXTERNAL_REF: &'static str = "External workbook references are not loaded by Sheet Shadow dependency extraction.";

/// The report of a defined name, given how many cells it stands for.
pub open spec fn name_report(
    k: Key<Seq<char>>,
    formula: Seq<char>,
    token: Seq<char>,
    target: Seq<char>,
    count: nat,
) -> FieldsModel {
    if count == 0 {
        diagnostic(
            k,
            formula,
            "warning"@,
            "defined_name_unsupported_target"@,
            NAME_UNSUPPORTED@,
            seq![
                ("name"@, token),
                ("target"@, target),
                ("not_completed"@, "defined_name_dependency_expansion"@),
            ],
        )
    } else {
        diagnostic(
            k,
            formula,
            "info"@,
            "defined_name_dependency_expanded"@,
            NAME_EXPANDED@,
            seq![
                ("name"@, token),
                ("target"@, target),
                ("completed"@, "defined_name_dependency_expansion"@),
                ("dep_count"@, text::decimal(count)),
            ],
        )
    }
}

fn report_name(k: &Key, formula: &str, token: &str, target: &str, count: usize) -> (r: Fields)
    ensures
        r.deep_view() == name_report(k.deep_view(), formula@, token@, target@, count as nat),
{
    if count == 0 {
        let fields: Fields = vec![
            field("name", token),
            field("target", target),
            field("not_completed", "defined_name_dependency_expansion"),
        ];
        assert(fields.deep_view() == seq![
            ("name"@, token@),
            ("target"@, target@),
            ("not_completed"@, "defined_name_dependency_expansion"@),
        ]);
        dependency_diagnostic(
            k,
            formula,
            "warning",
            "defined_name_unsupported_target",
            NAME_UNSUPPORTED,
            &fields,
        )
    } else {
        let fields: Fields = vec![
            field("name", token),
            field("target", target),
            field("completed", "defined_name_dependency_expansion"),
            field("dep_count", &text::size_text(count)),
        ];
        assert(fields.deep_view() == seq![
            ("name"@, token@),
            ("target"@, target@),
            ("completed"@, "defined_name_dependency_expansion"@),
            ("dep_count"@, text::decimal(count as nat)),
        ]);
        dependency_diagnostic(
            k,
            formula,
            "info",
            "defined_name_dependency_expanded",
            NAME_EXPANDED,
            &fields,
        )
    }
}

/// The words seen and the reports of the names among the words found.
pub open spec fn name_hits_reports(
    k: Key<Seq<char>>,
    formula: Seq<char>,
    bare: Seq<char>,
    hits: Seq<(Seq<char>, Seq<Option<Seq<char>>>)>,
    lookup: Seq<(Seq<char>, Seq<char>)>,
    cells: deps::CellsModel,
    order: Seq<Seq<char>>,
) -> (Seq<Seq<char>>, ReportModel)
    decreases hits.len(),
{
    if hits.len() == 0 {
        (Seq::empty(), Seq::empty())
    } else {
        let (seen, out) = name_hits_reports(
            k,
            formula,
            bare,
            hits.drop_last(),
            lookup,
            cells,
            order,
        );
        let (before, g) = hits.last();
        let token = pattern::group_text(g, 0);
        let lower = text::lower(token);
        let at = (pattern::scanned_text(hits.drop_last()) + before).len() as int;
        let found = entries::get(lookup, lower);
        if !seen.contains(lower) && found is Some && deps::may_be_name(
            bare,
            at,
            at + token.len(),
        ) {
            let target = deps::name_target(found.unwrap());
            let count = deps::plain_deps(
                deps::tokens_blanked(deps::literals_blanked(target)),
                k.sheet,
                cells,
                order,
            ).len();
            (entries::with(seen, lower), out.push(name_report(k, formula, token, target, count)))
        } else {
            (entries::with(seen, lower), out)
        }
    }
}

pub open spec fn name_reports(
    k: Key<Seq<char>>,
    formula: Seq<char>,
    bare: Seq<char>,
    cells: deps::CellsModel,
    order: Seq<Seq<char>>,
    names: deps::NamesModel,
) -> ReportModel {
    if names.len() == 0 {
        Seq::empty()
    } else {
        name_hits_reports(
            k,
            formula,
            bare,
            pattern::scan(deps::NAME_PATTERN@, bare).0,
            deps::names_on(names, k.sheet),
            cells,
            order,
        ).1
    }
}

/// The reports of the names among the words found in a formula.
pub fn report_name_hits(
    k: &Key,
    formula: &str,
    bare: &str,
    hits: &Vec<(String, Vec<Option<String>>)>,
    lookup: &Vec<(String, String)>,
    cells: &Vec<(Key, String)>,
    order: &Vec<String>,
) -> (r: Vec<Fields>)
    ensures
        r.deep_view() == name_hits_reports(
            k.deep_view(),
            formula@,
            bare@,
            hits.deep_view(),
            lookup.deep_view(),
            cells.deep_view(),
            order.deep_view(),
        ).1,
{
    let f = text::chars_of(bare);
    let ghost all = hits.deep_view();
    let mut out: Vec<Fields> = Vec::new();
    let mut seen: Vec<String> = Vec::new();
    let mut passed: Vec<char> = Vec::new();
    assert(out.deep_view() == Seq::<FieldsModel>::empty());
    assert(seen.deep_view() == Seq::<Seq<char>>::empty());
    let mut i: usize = 0;
    while i < hits.len()
        invariant
            i <= hits.len(),
            all == hits.deep_view(),
            f@ == bare@,
            passed@ == pattern::scanned_text(all.take(i as int)),
            (seen.deep_view(), out.deep_view()) == name_hits_reports(
                k.deep_view(),
                formula@,
                bare@,
                all.take(i as int),
                lookup.deep_view(),
                cells.deep_view(),
                order.deep_view(),
            ),
        decreases hits.len() - i,
    {
        assert(all.take(i + 1).drop_last() == all.take(i as int));
        assert(all.take(i + 1).last() == hits@[i as int].deep_view());
        let token = pattern::group_text_of(&hits[i].1, 0);
        let lower = text::to_lower(&token);
        let mut before = text::chars_of(&hits[i].0);
        passed.append(&mut before);
        let at = passed.len();
        let mut whole = text::chars_of(&token);
        passed.append(&mut whole);
        let end = passed.len();
        if !entries::set_has(&seen, &lower) {
            match entries::map_get(lookup, &lower) {
                Some(target) => {
                    if deps::is_defined_name_context(&f, at, end) {
                        let target = text::without_leading(&text::trimmed(target), '=');
                        let masked = deps::mask_unsupported_dependency_tokens(
                            &deps::strip_formula_string_literals(&target),
                        );
                        let found = deps::extract_deps_regex(&masked, &k.sheet, cells, order);
                        assert(found.deep_view().len() == found.len());
                        let one = report_name(k, formula, &token, &target, found.len());
                        let ghost done = out.deep_view();
                        out.push(one);
                        assert(out.deep_view() == done.push(one.deep_view()));
                    }
                },
                None => {},
            }
        }
        entries::set_add(&mut seen, lower);
        i = i + 1;
    }
    assert(all.take(all.len() as int) == all);
    out
}

pub fn defined_name_diagnostics(
    k: &Key,
    formula: &str,
    bare: &str,
    cells: &Vec<(Key, String)>,
    order: &Vec<String>,
    names: &Vec<DefinedName>,
) -> (r: Vec<Fields>)
    ensures
        r.deep_view() == name_reports(
            k.deep_view(),
            formula@,
            bare@,
            cells.deep_view(),
            order.deep_view(),
            names.deep_view(),
        ),
{
    if names.len() == 0 {
        let none: Vec<Fields> = Vec::new();
        assert(none.deep_view() == Seq::<FieldsModel>::empty());
        return none;
    }
    let lookup = deps::defined_name_lookup(names, &k.sheet);
    let found = pattern::find_all(deps::NAME_PATTERN, bare);
    report_name_hits(k, formula, bare, &found.0, &lookup, cells, order)
}

pub open spec fn external_report(k: Key<Seq<char>>, formula: Seq<char>, token: Seq<char>) -> FieldsModel {
    diagnostic(
        k,
        formula,
        "warning"@,
        "external_workbook_ref_unsupported"@,
        EXTERNAL_REF@,
        seq![
            ("token"@, token),
            ("not_completed"@, "external_workbook_dependency_resolution"@),
            ("fallback"@, "external_ref_masked_local_refs_preserved"@),
        ],
    )
}

fn report_external(k: &Key, formula: &str, token: &str) -> (r: Fields)
    ensures
        r.deep_view() == external_report(k.deep_view(), formula@, token@),
{
    let fields: Fields = vec![
        field("token", token),
        field("not_completed", "external_workbook_dependency_resolution"),
        field("fallback", "external_ref_masked_local_refs_preserved"),
    ];
    assert(fields.deep_view() == seq![
        ("token"@, token@),
        ("not_completed"@, "external_workbook_dependency_resolution"@),
        ("fallback"@, "external_ref_masked_local_refs_preserved"@),
    ]);
    dependency_diagnostic(
        k,
        formula,
        "warning",
        "external_workbook_ref_unsupported",
        EXTERNAL_REF,
        &fields,
    )
}

pub open spec fn external_reports(
    k: Key<Seq<char>>,
    formula: Seq<char>,
    hits: Seq<(Seq<char>, Seq<Option<Seq<char>>>)>,
) -> ReportModel {
    Seq::new(
        hits.len(),
        |i: int| external_report(k, formula, pattern::group_text(hits[i].1, 0)),
    )
}

/// All reports of the formula of cell `k`.
pub open spec fn formula_reports(
    k: Key<Seq<char>>,
    formula: Seq<char>,
    cells: deps::CellsModel,
    formula_keys: Seq<Key<Seq<char>>>,
    tables: Seq<TableModel>,
    names: deps::NamesModel,
    order: Seq<Seq<char>>,
) -> ReportModel {
    let bare = deps::literals_blanked(formula);
    external_reports(k, formula, pattern::scan(deps::EXTERNAL_PATTERN@, bare).0)
        + structured_reports(k, formula, bare, cells, formula_keys, tables) + name_reports(
        k,
        formula,
        bare,
        cells,
        order,
        names,
    )
}

pub fn formula_dependency_diagnostics(
    k: &Key,
    formula: &str,
    cells: &Vec<(Key, String)>,
    formula_keys: &Vec<Key>,
    tables: &Vec<TableInfo>,
    names: &Vec<DefinedName>,
    order: &Vec<String>,
) -> (r: Vec<Fields>)
    ensures
        r.deep_view() == formula_reports(
            k.deep_view(),
            formula@,
            cells.deep_view(),
            formula_keys.deep_view(),
            tables.deep_view(),
            names.deep_view(),
            order.deep_view(),
        ),
{
    let bare = deps::strip_formula_string_literals(formula);
    let found = pattern::find_all(deps::EXTERNAL_PATTERN, &bare);
    let hits = &found.0;
    let ghost all = hits.deep_view();
    let mut out: Vec<Fields> = Vec::new();
    let mut i: usize = 0;
    assert(out.deep_view() == external_reports(k.deep_view(), formula@, all.take(0)));
    while i < hits.len()
        invariant
            i <= hits.len(),
            all == hits.deep_view(),
            out.deep_view() == external_reports(k.deep_view(), formula@, all.take(i as int)),
        decreases hits.len() - i,
    {
        assert(all[i as int] == hits@[i as int].deep_view());
        let one = report_external(k, formula, &pattern::group_text_of(&hits[i].1, 0));
        let ghost done = out.deep_view();
        out.push(one);
        assert(out.deep_view() == done.push(one.deep_view()));
        assert(external_reports(k.deep_view(), formula@, all.take(i + 1)) == done.push(
            one.deep_view(),
        ));
        i = i + 1;
    }
    assert(all.take(all.len() as int) == all);
    let more = structured_ref_diagnostics(k, formula, &bare, cells, formula_keys, tables);
    add_reports(&mut out, more);
    let named = defined_name_diagnostics(k, formula, &bare, cells, order, names);
    add_reports(&mut out, named);
    out
}

} // verus!
