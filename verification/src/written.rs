//! What the elements that are written say, read as they stand.

use crate::cellxml;
use crate::entries;
use crate::objects;
use crate::partxml;
use crate::pattern;
use crate::records::{AutoFilterRule, CellComment, ConditionalFormatRule, DataValidationRule};
use crate::sheetxml;
use crate::splice;
use crate::styles;
use crate::text;
use crate::xml;
use vstd::prelude::*;
use vstd::string::*;

verus! {

pub type Attrs = Seq<(Seq<char>, Seq<char>)>;

// ----- Pieces of written text -----

/// An attribute as it is written.
spec fn one_attr(name: Seq<char>, value: Seq<char>) -> Seq<char> {
    " "@ + name + "=\""@ + xml::escaped(value) + "\""@
}

proof fn lemma_one(name: Seq<char>, value: Seq<char>)
    ensures
        xml::attrs_text(seq![(name, value)]) == one_attr(name, value),
{
    let list = seq![(name, value)];
    assert(list.skip(1) == Attrs::empty());
    assert(xml::attrs_text(list.skip(1)) == Seq::<char>::empty());
    assert(one_attr(name, value) + Seq::<char>::empty() == one_attr(name, value));
}

proof fn lemma_attrs_add_up(a: Attrs, b: Attrs)
    ensures
        xml::attrs_text(a + b) == xml::attrs_text(a) + xml::attrs_text(b),
    decreases a.len(),
{
    if a.len() == 0 {
        assert(a + b == b);
        assert(xml::attrs_text(a) + xml::attrs_text(b) == xml::attrs_text(b));
    } else {
        lemma_attrs_add_up(a.skip(1), b);
        assert((a + b).skip(1) == a.skip(1) + b);
        let first = one_attr(a[0].0, a[0].1);
        let x = xml::attrs_text(a.skip(1));
        let y = xml::attrs_text(b);
        assert(first + (x + y) == first + x + y);
    }
}

/// Text up to the value of an attribute, the value and what ends it.
proof fn lemma_attr_behind(
    before: Seq<char>,
    lit: Seq<char>,
    name: Seq<char>,
    value: Seq<char>,
    more: Seq<char>,
)
    requires
        lit == " "@ + name + "=\""@,
    ensures
        before + lit + xml::escaped(value) + "\""@ == before + one_attr(name, value),
        before + lit + xml::escaped(value) + ("\""@ + more) == before + one_attr(name, value)
            + more,
{
    let v = xml::escaped(value);
    assert(before + (" "@ + name + "=\""@) + v + "\""@ == before + (" "@ + name + "=\""@ + v
        + "\""@));
    assert(before + (" "@ + name + "=\""@) + v + ("\""@ + more) == before + (" "@ + name + "=\""@
        + v + "\""@) + more);
}

proof fn lemma_assoc(a: Seq<char>, b: Seq<char>, c: Seq<char>)
    ensures
        a + b + c == a + (b + c),
{
}

/// The first element of a text that begins with a written tag.
proof fn lemma_first_element(
    prefix: Seq<char>,
    name: Seq<char>,
    list: Attrs,
    end: Seq<char>,
    rest: Seq<char>,
    attribute: Seq<char>,
)
    requires
        xml::plain_prefix(prefix),
        xml::plain_name(name),
        xml::plain_names(list),
        end == ">"@ || end == " />"@,
    ensures
        xml::is_tag(xml::written_tag(prefix, name, list, end)),
        xml::tag_name(xml::written_tag(prefix, name, list, end)) == prefix + name,
        xml::element_attr(
            xml::written_tag(prefix, name, list, end) + rest,
            prefix + name,
            attribute,
        ) == entries::get(list, attribute),
{
    xml::lemma_written_tag(prefix, name, list, end);
    xml::lemma_begins_with(xml::written_tag(prefix, name, list, end), rest, prefix + name);
}

/// The texts of the elements of one that begins with a written tag of another name.
proof fn lemma_texts_inside(
    prefix: Seq<char>,
    name: Seq<char>,
    list: Attrs,
    rest: Seq<char>,
    wanted: Seq<char>,
)
    requires
        xml::plain_prefix(prefix),
        xml::plain_name(name),
        xml::plain_names(list),
        wanted != name,
        rest.len() > 0 && rest[0] == '<',
    ensures
        xml::element_text(xml::written_tag(prefix, name, list, ">"@) + rest, prefix + wanted)
            == xml::element_text(rest, prefix + wanted),
{
    xml::lemma_written_tag(prefix, name, list, ">"@);
    xml::lemma_under_prefix(prefix, name, wanted);
    xml::lemma_marked_tag(xml::written_tag(prefix, name, list, ">"@), rest, prefix + wanted);
}

proof fn lemma_begins_with_bracket(a: Seq<char>, b: Seq<char>)
    ensures
        ("<"@ + a + b).len() > 0 && ("<"@ + a + b)[0] == '<',
        ("</"@ + a + b).len() > 0 && ("</"@ + a + b)[0] == '<',
{
    reveal_strlit("<");
    reveal_strlit("</");
}

proof fn lemma_full_name(prefix: Seq<char>, name: Seq<char>)
    requires
        xml::plain_prefix(prefix),
        xml::plain_name(name),
    ensures
        xml::plain_name(prefix + name),
{
    let full = prefix + name;
    assert forall|j: int| 0 <= j < full.len() implies !xml::ends_name(#[trigger] full[j]) && full[j]
        != '=' && full[j] != '"' && full[j] != '<' by {
        if j < prefix.len() {
            assert(full[j] == prefix[j]);
        } else {
            assert(full[j] == name[j - prefix.len()]);
        }
    }
}

/// The text of an element, and what is looked for behind it.
proof fn lemma_wrapped_text(
    prefix: Seq<char>,
    name: Seq<char>,
    value: Seq<char>,
    rest: Seq<char>,
    wanted: Seq<char>,
)
    requires
        xml::plain_prefix(prefix),
        xml::plain_name(name),
        wanted.len() > 0,
        rest.len() == 0 || rest[0] == '<',
    ensures
        xml::element_text(
            cellxml::wrapped(prefix, name, xml::escaped(value)) + rest,
            prefix + wanted,
        ) == if wanted == name {
            Some(value)
        } else {
            xml::element_text(rest, prefix + wanted)
        },
{
    let t = "<"@ + prefix + name + ">"@;
    let inner = xml::escaped(value);
    let end = "</"@ + (prefix + name) + ">"@;
    lemma_plain_open(prefix, name);
    lemma_wrapped_pieces(prefix, name, inner, rest);
    lemma_begins_with_bracket(prefix + name, ">"@);
    assert((end + rest)[0] == end[0]);
    xml::lemma_marked(t, value, end + rest, prefix + wanted);
    xml::lemma_under_prefix(prefix, name, wanted);
    xml::lemma_under_prefix(prefix, wanted, name);
    xml::lemma_marked_tag(end, rest, prefix + wanted);
}

proof fn lemma_plain_open(prefix: Seq<char>, name: Seq<char>)
    requires
        xml::plain_prefix(prefix),
        xml::plain_name(name),
    ensures
        xml::is_tag("<"@ + prefix + name + ">"@),
        xml::tag_name("<"@ + prefix + name + ">"@) == prefix + name,
        xml::is_tag("</"@ + (prefix + name) + ">"@),
        xml::tag_name("</"@ + (prefix + name) + ">"@) == Seq::<char>::empty(),
{
    let none = Attrs::empty();
    xml::lemma_written_tag(prefix, name, none, ">"@);
    assert(xml::attrs_text(none) == Seq::<char>::empty());
    assert("<"@ + prefix + name + Seq::<char>::empty() == "<"@ + prefix + name);
    lemma_full_name(prefix, name);
    xml::lemma_end_tag(prefix + name);
}

proof fn lemma_wrapped_pieces(
    prefix: Seq<char>,
    name: Seq<char>,
    inner: Seq<char>,
    rest: Seq<char>,
)
    ensures
        cellxml::wrapped(prefix, name, inner) + rest == "<"@ + prefix + name + ">"@ + inner + ("</"@
            + (prefix + name) + ">"@ + rest),
{
}

/// An end tag holds no element.
proof fn lemma_no_text_left(prefix: Seq<char>, name: Seq<char>, wanted: Seq<char>)
    requires
        xml::plain_prefix(prefix),
        xml::plain_name(name),
        wanted.len() > 0,
    ensures
        xml::element_text("</"@ + prefix + name + ">"@, prefix + wanted) is None,
{
    lemma_full_name(prefix, name);
    let full = prefix + name;
    xml::lemma_end_tag(full);
    let none = Seq::<char>::empty();
    let end = "</"@ + full + ">"@;
    assert("</"@ + prefix + name + ">"@ == end) by {
        assert("</"@ + prefix + name == "</"@ + full);
    }
    xml::lemma_under_prefix(prefix, wanted, name);
    xml::lemma_marked_tag(end, none, prefix + wanted);
    assert(end + none == end);
}

// ----- Merged ranges -----

proof fn lemma_merge_words()
    ensures
        "mergeCell ref=\""@ == "mergeCell"@ + (" "@ + "ref"@ + "=\""@),
        "\" />"@ == "\""@ + " />"@,
        xml::plain_name("mergeCell"@),
        xml::plain_name("ref"@),
{
    reveal_strlit("mergeCell ref=\"");
    reveal_strlit("mergeCell");
    reveal_strlit(" ");
    reveal_strlit("ref");
    reveal_strlit("=\"");
    reveal_strlit("\" />");
    reveal_strlit("\"");
    reveal_strlit(" />");
    assert("mergeCell ref=\""@ =~= "mergeCell"@ + (" "@ + "ref"@ + "=\""@));
    assert("\" />"@ =~= "\""@ + " />"@);
}

spec fn merge_tag(prefix: Seq<char>, range: Seq<char>) -> Seq<char> {
    xml::written_tag(prefix, "mergeCell"@, seq![("ref"@, range)], " />"@)
}

proof fn lemma_merge_element(before: Seq<char>, prefix: Seq<char>, range: Seq<char>)
    ensures
        before + "<"@ + prefix + "mergeCell ref=\""@ + xml::escaped(range) + "\" />"@ == before
            + merge_tag(prefix, range),
{
    lemma_merge_words();
    lemma_one("ref"@, range);
    let v = xml::escaped(range);
    let open = "<"@ + prefix + "mergeCell"@;
    let lit = " "@ + "ref"@ + "=\""@;
    lemma_attr_behind(open, lit, "ref"@, range, " />"@);
    assert(before + "<"@ + prefix + ("mergeCell"@ + lit) + v + ("\""@ + " />"@) == before + (open
        + lit + v + ("\""@ + " />"@)));
}

spec fn merge_tags(prefix: Seq<char>, ranges: Seq<Seq<char>>) -> Seq<Seq<char>>
    decreases ranges.len(),
{
    if ranges.len() == 0 {
        Seq::empty()
    } else {
        merge_tags(prefix, ranges.drop_last()) + seq![merge_tag(prefix, ranges.last())]
    }
}

proof fn lemma_merge_row(prefix: Seq<char>, ranges: Seq<Seq<char>>)
    ensures
        sheetxml::merge_elements(prefix, ranges) == xml::in_row(merge_tags(prefix, ranges)),
    decreases ranges.len(),
{
    if ranges.len() > 0 {
        let fewer = ranges.drop_last();
        lemma_merge_row(prefix, fewer);
        let t = merge_tag(prefix, ranges.last());
        lemma_merge_element(sheetxml::merge_elements(prefix, fewer), prefix, ranges.last());
        xml::lemma_rows_add_up(merge_tags(prefix, fewer), seq![t], Seq::empty());
        lemma_row_of_one(t);
    }
}

proof fn lemma_row_of_one(t: Seq<char>)
    ensures
        xml::in_row(seq![t]) == t,
{
    assert(seq![t].skip(1) == Seq::<Seq<char>>::empty());
    assert(xml::in_row(seq![t].skip(1)) == Seq::<char>::empty());
    assert(t + Seq::<char>::empty() == t);
}

/// Whether a tag is the one of a merged range.
#[verifier::opaque]
spec fn names_merge(t: Seq<char>, prefix: Seq<char>, range: Seq<char>) -> bool {
    &&& xml::is_tag(t)
    &&& xml::tag_name(t) == prefix + "mergeCell"@
    &&& xml::tag_attr(t, "ref"@) == Some(range)
}

proof fn lemma_merge_tag(prefix: Seq<char>, range: Seq<char>)
    requires
        xml::plain_prefix(prefix),
    ensures
        names_merge(merge_tag(prefix, range), prefix, range),
{
    reveal(names_merge);
    lemma_merge_words();
    let list = seq![("ref"@, range)];
    xml::lemma_written_tag(prefix, "mergeCell"@, list, " />"@);
    assert(list.last().0 == "ref"@);
}

proof fn lemma_merge_tags(prefix: Seq<char>, ranges: Seq<Seq<char>>)
    requires
        xml::plain_prefix(prefix),
    ensures
        merge_tags(prefix, ranges).len() == ranges.len(),
        forall|i: int|
            0 <= i < ranges.len() ==> names_merge(
                #[trigger] merge_tags(prefix, ranges)[i],
                prefix,
                ranges[i],
            ),
    decreases ranges.len(),
{
    if ranges.len() > 0 {
        lemma_merge_tags(prefix, ranges.drop_last());
        lemma_merge_tag(prefix, ranges.last());
    }
}

/// The written merged ranges name each range in turn, and nothing else.
pub proof fn law_written_merges_name_their_ranges(prefix: Seq<char>, ranges: Seq<Seq<char>>)
    requires
        xml::plain_prefix(prefix),
    ensures
        ({
            let found = xml::tags(sheetxml::merge_elements(prefix, ranges));
            &&& found.len() == ranges.len()
            &&& forall|i: int|
                0 <= i < found.len() ==> xml::tag_name(#[trigger] found[i]) == prefix
                    + "mergeCell"@ && xml::tag_attr(found[i], "ref"@) == Some(ranges[i])
        }),
{
    lemma_merge_row(prefix, ranges);
    lemma_merge_tags(prefix, ranges);
    let all = merge_tags(prefix, ranges);
    assert forall|i: int| 0 <= i < all.len() implies xml::is_tag(#[trigger] all[i]) by {
        reveal(names_merge);
    }
    xml::lemma_tags_in_row(all);
    assert forall|i: int| 0 <= i < all.len() implies xml::tag_name(#[trigger] all[i]) == prefix
        + "mergeCell"@ && xml::tag_attr(all[i], "ref"@) == Some(ranges[i]) by {
        reveal(names_merge);
    }
}

// ----- Filters -----

proof fn lemma_filter_words()
    ensures
        "autoFilter ref=\""@ == "autoFilter"@ + (" "@ + "ref"@ + "=\""@),
        "\" />"@ == "\""@ + " />"@,
        xml::plain_name("autoFilter"@),
        xml::plain_name("ref"@),
{
    reveal_strlit("autoFilter ref=\"");
    reveal_strlit("autoFilter");
    reveal_strlit(" ");
    reveal_strlit("ref");
    reveal_strlit("=\"");
    reveal_strlit("\" />");
    reveal_strlit("\"");
    reveal_strlit(" />");
    assert("autoFilter ref=\""@ =~= "autoFilter"@ + (" "@ + "ref"@ + "=\""@));
    assert("\" />"@ =~= "\""@ + " />"@);
}

proof fn lemma_filter_tag(prefix: Seq<char>, range: Seq<char>)
    ensures
        "<"@ + prefix + "autoFilter ref=\""@ + xml::escaped(range) + "\" />"@ == xml::written_tag(
            prefix,
            "autoFilter"@,
            seq![("ref"@, range)],
            " />"@,
        ),
{
    lemma_filter_words();
    lemma_one("ref"@, range);
    let open = "<"@ + prefix + "autoFilter"@;
    let lit = " "@ + "ref"@ + "=\""@;
    lemma_attr_behind(open, lit, "ref"@, range, " />"@);
    assert("<"@ + prefix + ("autoFilter"@ + lit) == open + lit);
}

/// The written filter of a sheet is on the range of the first filter of that sheet; a sheet
/// without one has none written.
pub proof fn law_written_filters_name_their_range(
    prefix: Seq<char>,
    sheet: Seq<char>,
    filters: Seq<AutoFilterRule<Seq<char>>>,
    i: int,
)
    requires
        xml::plain_prefix(prefix),
        0 <= i <= filters.len(),
        forall|j: int| 0 <= j < i ==> (#[trigger] filters[j]).range.sheet != sheet,
    ensures
        ({
            let s = sheetxml::filter_element(prefix, sheet, filters, 0);
            &&& i == filters.len() ==> s.len() == 0
            &&& i < filters.len() && filters[i].range.sheet == sheet ==> xml::element_attr(
                s,
                prefix + "autoFilter"@,
                "ref"@,
            ) == Some(filters[i].range.range_text())
        }),
{
    lemma_filter_at(prefix, sheet, filters, 0, i);
    if i < filters.len() && filters[i].range.sheet == sheet {
        let range = filters[i].range.range_text();
        lemma_filter_tag(prefix, range);
        lemma_filter_words();
        let list = seq![("ref"@, range)];
        let none = Seq::<char>::empty();
        lemma_first_element(prefix, "autoFilter"@, list, " />"@, none, "ref"@);
        let t = xml::written_tag(prefix, "autoFilter"@, list, " />"@);
        assert(t + none == t);
        assert(list.last().0 == "ref"@);
    }
}

proof fn lemma_filter_at(
    prefix: Seq<char>,
    sheet: Seq<char>,
    filters: Seq<AutoFilterRule<Seq<char>>>,
    from: int,
    i: int,
)
    requires
        0 <= from <= i <= filters.len(),
        forall|j: int| from <= j < i ==> (#[trigger] filters[j]).range.sheet != sheet,
    ensures
        sheetxml::filter_element(prefix, sheet, filters, from) == sheetxml::filter_element(
            prefix,
            sheet,
            filters,
            i,
        ),
    decreases i - from,
{
    if from < i {
        assert(filters[from].range.sheet != sheet);
        lemma_filter_at(prefix, sheet, filters, from + 1, i);
    }
}

// ----- Validations -----

proof fn lemma_validation_words()
    ensures
        "dataValidation type=\""@ == "dataValidation"@ + (" "@ + "type"@ + "=\""@),
        " operator=\""@ == " "@ + "operator"@ + "=\""@,
        " allowBlank=\""@ == " "@ + "allowBlank"@ + "=\""@,
        "\" sqref=\""@ == "\""@ + (" "@ + "sqref"@ + "=\""@),
        "\">"@ == "\""@ + ">"@,
        "dataValidation>"@ == "dataValidation"@ + ">"@,
{
    reveal_strlit("dataValidation type=\"");
    reveal_strlit("dataValidation");
    reveal_strlit("dataValidation>");
    reveal_strlit("type");
    reveal_strlit(" operator=\"");
    reveal_strlit("operator");
    reveal_strlit(" allowBlank=\"");
    reveal_strlit("allowBlank");
    reveal_strlit("\" sqref=\"");
    reveal_strlit("sqref");
    reveal_strlit(" ");
    reveal_strlit("=\"");
    reveal_strlit("\"");
    reveal_strlit("\">");
    reveal_strlit(">");
    assert("dataValidation type=\""@ =~= "dataValidation"@ + (" "@ + "type"@ + "=\""@));
    assert(" operator=\""@ =~= " "@ + "operator"@ + "=\""@);
    assert(" allowBlank=\""@ =~= " "@ + "allowBlank"@ + "=\""@);
    assert("\" sqref=\""@ =~= "\""@ + (" "@ + "sqref"@ + "=\""@));
    assert("\">"@ =~= "\""@ + ">"@);
    assert("dataValidation>"@ =~= "dataValidation"@ + ">"@);
}

proof fn lemma_validation_names()
    ensures
        xml::plain_name("dataValidation"@),
        xml::plain_name("type"@),
        xml::plain_name("operator"@),
        xml::plain_name("allowBlank"@),
        xml::plain_name("sqref"@),
        xml::plain_name("formula1"@),
        xml::plain_name("formula2"@),
        "type"@ != "operator"@ && "type"@ != "allowBlank"@ && "type"@ != "sqref"@,
        "operator"@ != "allowBlank"@ && "operator"@ != "sqref"@ && "allowBlank"@ != "sqref"@,
        "formula1"@ != "formula2"@,
        "formula1"@ != "dataValidation"@ && "formula2"@ != "dataValidation"@,
{
    reveal_strlit("dataValidation");
    reveal_strlit("type");
    reveal_strlit("operator");
    reveal_strlit("allowBlank");
    reveal_strlit("sqref");
    reveal_strlit("formula1");
    reveal_strlit("formula2");
    assert("type"@.len() == 4 && "operator"@.len() == 8 && "allowBlank"@.len() == 10
        && "sqref"@.len() == 5 && "dataValidation"@.len() == 14 && "formula1"@.len() == 8
        && "formula2"@.len() == 8);
    assert("formula1"@[7] == '1' && "formula2"@[7] == '2');
}

spec fn some_attr(name: Seq<char>, value: Seq<char>) -> Attrs {
    if value.len() == 0 {
        Seq::empty()
    } else {
        seq![(name, value)]
    }
}

spec fn flag_text(b: bool) -> Seq<char> {
    if b {
        "1"@
    } else {
        "0"@
    }
}

proof fn lemma_flag_text(b: bool)
    ensures
        xml::escaped(flag_text(b)) == flag_text(b),
{
    reveal_strlit("1");
    reveal_strlit("0");
    xml::lemma_digits_are_plain(flag_text(b));
}

spec fn validation_attrs(v: DataValidationRule<Seq<char>>) -> Attrs {
    seq![("type"@, v.validation_type)] + some_attr("operator"@, v.operator) + seq![
        ("allowBlank"@, flag_text(v.allow_blank)),
    ] + seq![("sqref"@, v.range.range_text())]
}

proof fn lemma_operator(operator: Seq<char>)
    ensures
        sheetxml::operator_attr(operator) == xml::attrs_text(some_attr("operator"@, operator)),
{
    lemma_validation_words();
    lemma_one("operator"@, operator);
}

proof fn lemma_validation_attrs(v: DataValidationRule<Seq<char>>)
    ensures
        xml::attrs_text(validation_attrs(v)) == one_attr("type"@, v.validation_type)
            + sheetxml::operator_attr(v.operator) + one_attr(
            "allowBlank"@,
            flag_text(v.allow_blank),
        ) + one_attr("sqref"@, v.range.range_text()),
{
    let a = seq![("type"@, v.validation_type)];
    let b = some_attr("operator"@, v.operator);
    let c = seq![("allowBlank"@, flag_text(v.allow_blank))];
    let d = seq![("sqref"@, v.range.range_text())];
    lemma_attrs_add_up(a, b);
    lemma_attrs_add_up(a + b, c);
    lemma_attrs_add_up(a + b + c, d);
    lemma_one("type"@, v.validation_type);
    lemma_operator(v.operator);
    lemma_one("allowBlank"@, flag_text(v.allow_blank));
    lemma_one("sqref"@, v.range.range_text());
}

proof fn lemma_four_assoc(
    open: Seq<char>,
    a: Seq<char>,
    b: Seq<char>,
    c: Seq<char>,
    d: Seq<char>,
    end: Seq<char>,
)
    ensures
        open + a + b + c + d + end == open + (a + b + c + d) + end,
{
}

proof fn lemma_validation_text(prefix: Seq<char>, v: DataValidationRule<Seq<char>>)
    ensures
        sheetxml::validation_element(prefix, v) == xml::written_tag(
            prefix,
            "dataValidation"@,
            validation_attrs(v),
            ">"@,
        ) + (sheetxml::formula_element(prefix, "formula1"@, v.formula1) + (
        sheetxml::formula_element(prefix, "formula2"@, v.formula2) + ("</"@ + prefix
            + "dataValidation"@ + ">"@))),
{
    lemma_validation_words();
    lemma_validation_attrs(v);
    lemma_flag_text(v.allow_blank);
    let range = v.range.range_text();
    let open = "<"@ + prefix + "dataValidation"@;
    let a = one_attr("type"@, v.validation_type);
    let b = sheetxml::operator_attr(v.operator);
    let c = one_attr("allowBlank"@, flag_text(v.allow_blank));
    let d = one_attr("sqref"@, range);
    let l1 = " "@ + "type"@ + "=\""@;
    let l2 = " "@ + "allowBlank"@ + "=\""@;
    let l3 = " "@ + "sqref"@ + "=\""@;
    lemma_assoc("<"@ + prefix, "dataValidation"@, l1);
    lemma_attr_behind(open, l1, "type"@, v.validation_type, Seq::empty());
    lemma_attr_behind(open + a + b, l2, "allowBlank"@, flag_text(v.allow_blank), l3);
    lemma_attr_behind(open + a + b + c, l3, "sqref"@, range, ">"@);
    lemma_four_assoc(open, a, b, c, d, ">"@);
    let t = open + a + b + c + d + ">"@;
    let f1 = sheetxml::formula_element(prefix, "formula1"@, v.formula1);
    let f2 = sheetxml::formula_element(prefix, "formula2"@, v.formula2);
    lemma_inside(t, f1, f2, prefix, "dataValidation"@);
}

proof fn lemma_inside(
    t: Seq<char>,
    a: Seq<char>,
    b: Seq<char>,
    prefix: Seq<char>,
    name: Seq<char>,
)
    ensures
        t + a + b + "</"@ + prefix + (name + ">"@) == t + (a + (b + ("</"@ + prefix + name
            + ">"@))),
{
}

/// The text of an element around a formula, where there is one.
proof fn lemma_formula_text(
    prefix: Seq<char>,
    name: Seq<char>,
    formula: Seq<char>,
    rest: Seq<char>,
    wanted: Seq<char>,
)
    requires
        xml::plain_prefix(prefix),
        xml::plain_name(name),
        wanted.len() > 0,
        rest.len() > 0,
        rest[0] == '<',
    ensures
        xml::element_text(
            sheetxml::formula_element(prefix, name, formula) + rest,
            prefix + wanted,
        ) == if wanted == name && formula.len() > 0 {
            Some(formula)
        } else {
            xml::element_text(rest, prefix + wanted)
        },
        (sheetxml::formula_element(prefix, name, formula) + rest).len() > 0,
        (sheetxml::formula_element(prefix, name, formula) + rest)[0] == '<',
{
    if formula.len() == 0 {
        assert(sheetxml::formula_element(prefix, name, formula) + rest == rest);
    } else {
        lemma_wrapped_text(prefix, name, formula, rest, wanted);
        reveal_strlit("<");
        let w = sheetxml::formula_element(prefix, name, formula);
        assert(w[0] == '<');
        assert((w + rest)[0] == w[0]);
    }
}

proof fn lemma_validation_reads(v: DataValidationRule<Seq<char>>)
    ensures
        xml::plain_names(validation_attrs(v)),
        entries::get(validation_attrs(v), "type"@) == Some(v.validation_type),
        entries::get(validation_attrs(v), "operator"@) == if v.operator.len() > 0 {
            Some(v.operator)
        } else {
            None
        },
        entries::get(validation_attrs(v), "allowBlank"@) == Some(flag_text(v.allow_blank)),
        entries::get(validation_attrs(v), "sqref"@) == Some(v.range.range_text()),
{
    lemma_validation_names();
    let list = validation_attrs(v);
    reveal_with_fuel(entries::place, 5);
    let n = list.len();
    assert(list[0].0 == "type"@);
    assert(list[n - 1] == ("sqref"@, v.range.range_text()));
    assert(list[n - 2] == ("allowBlank"@, flag_text(v.allow_blank)));
    if v.operator.len() > 0 {
        assert(list[1] == ("operator"@, v.operator));
    }
}

/// A written validation tells its kind, its operator where it has one, whether blanks are
/// allowed, the cells that it is for, and its formulas where they are there.
pub proof fn law_written_validations_tell_the_rule(
    prefix: Seq<char>,
    v: DataValidationRule<Seq<char>>,
)
    requires
        xml::plain_prefix(prefix),
    ensures
        ({
            let s = sheetxml::validation_element(prefix, v);
            let name = prefix + "dataValidation"@;
            &&& xml::element_attr(s, name, "type"@) == Some(v.validation_type)
            &&& v.operator.len() > 0 ==> xml::element_attr(s, name, "operator"@) == Some(
                v.operator,
            )
            &&& v.operator.len() == 0 ==> xml::element_attr(s, name, "operator"@) is None
            &&& xml::element_attr(s, name, "allowBlank"@) == Some(
                if v.allow_blank {
                    "1"@
                } else {
                    "0"@
                },
            )
            &&& xml::element_attr(s, name, "sqref"@) == Some(v.range.range_text())
            &&& xml::element_text(s, prefix + "formula1"@) == if v.formula1.len() > 0 {
                Some(v.formula1)
            } else {
                None
            }
            &&& xml::element_text(s, prefix + "formula2"@) == if v.formula2.len() > 0 {
                Some(v.formula2)
            } else {
                None
            }
        }),
{
    lemma_validation_text(prefix, v);
    lemma_validation_names();
    lemma_validation_reads(v);
    let list = validation_attrs(v);
    let end = "</"@ + prefix + "dataValidation"@ + ">"@;
    let f1 = sheetxml::formula_element(prefix, "formula1"@, v.formula1);
    let f2 = sheetxml::formula_element(prefix, "formula2"@, v.formula2);
    let rest = f1 + (f2 + end);
    lemma_first_element(prefix, "dataValidation"@, list, ">"@, rest, "type"@);
    lemma_first_element(prefix, "dataValidation"@, list, ">"@, rest, "operator"@);
    lemma_first_element(prefix, "dataValidation"@, list, ">"@, rest, "allowBlank"@);
    lemma_first_element(prefix, "dataValidation"@, list, ">"@, rest, "sqref"@);
    assert(end.len() > 0 && end[0] == '<') by {
        reveal_strlit("</");
    }
    lemma_formula_text(prefix, "formula2"@, v.formula2, end, "formula1"@);
    lemma_formula_text(prefix, "formula2"@, v.formula2, end, "formula2"@);
    lemma_formula_text(prefix, "formula1"@, v.formula1, f2 + end, "formula1"@);
    lemma_formula_text(prefix, "formula1"@, v.formula1, f2 + end, "formula2"@);
    lemma_no_text_left(prefix, "dataValidation"@, "formula1"@);
    lemma_no_text_left(prefix, "dataValidation"@, "formula2"@);
    lemma_texts_inside(prefix, "dataValidation"@, list, rest, "formula1"@);
    lemma_texts_inside(prefix, "dataValidation"@, list, rest, "formula2"@);
}

// ----- Conditional formats -----

proof fn lemma_format_words()
    ensures
        "conditionalFormatting sqref=\""@ == "conditionalFormatting"@ + (" "@ + "sqref"@ + "=\""@),
        "\"><"@ == "\""@ + ">"@ + "<"@,
        "cfRule type=\""@ == "cfRule"@ + (" "@ + "type"@ + "=\""@),
        "\" priority=\""@ == "\""@ + (" "@ + "priority"@ + "=\""@),
        "cfRule></"@ == "cfRule"@ + ">"@ + "</"@,
{
    reveal_strlit("conditionalFormatting sqref=\"");
    reveal_strlit("conditionalFormatting");
    reveal_strlit("sqref");
    reveal_strlit(" ");
    reveal_strlit("=\"");
    reveal_strlit("\"><");
    reveal_strlit("\"");
    reveal_strlit(">");
    reveal_strlit("<");
    reveal_strlit("cfRule type=\"");
    reveal_strlit("cfRule");
    reveal_strlit("type");
    reveal_strlit("\" priority=\"");
    reveal_strlit("priority");
    reveal_strlit("cfRule></");
    reveal_strlit("</");
    assert("conditionalFormatting sqref=\""@ =~= "conditionalFormatting"@ + (" "@ + "sqref"@
        + "=\""@));
    assert("\"><"@ =~= "\""@ + ">"@ + "<"@);
    assert("cfRule type=\""@ =~= "cfRule"@ + (" "@ + "type"@ + "=\""@));
    assert("\" priority=\""@ =~= "\""@ + (" "@ + "priority"@ + "=\""@));
    assert("cfRule></"@ =~= "cfRule"@ + ">"@ + "</"@);
}

proof fn lemma_format_names()
    ensures
        xml::plain_name("conditionalFormatting"@),
        xml::plain_name("cfRule"@),
        xml::plain_name("sqref"@),
        xml::plain_name("type"@),
        xml::plain_name("priority"@),
        xml::plain_name("operator"@),
        xml::plain_name("formula"@),
        "type"@ != "priority"@ && "type"@ != "operator"@ && "priority"@ != "operator"@,
        "conditionalFormatting"@ != "cfRule"@,
        "formula"@ != "cfRule"@ && "formula"@ != "conditionalFormatting"@,
{
    reveal_strlit("conditionalFormatting");
    reveal_strlit("cfRule");
    reveal_strlit("sqref");
    reveal_strlit("type");
    reveal_strlit("priority");
    reveal_strlit("operator");
    reveal_strlit("formula");
    assert("conditionalFormatting"@.len() == 21 && "cfRule"@.len() == 6 && "type"@.len() == 4
        && "priority"@.len() == 8 && "operator"@.len() == 8 && "formula"@.len() == 7);
    assert("priority"@[0] == 'p' && "operator"@[0] == 'o');
}

spec fn format_attrs(f: ConditionalFormatRule<Seq<char>>) -> Attrs {
    seq![("type"@, f.rule_type)] + seq![("priority"@, text::decimal(f.priority as nat))]
        + some_attr("operator"@, f.operator)
}

proof fn lemma_format_attrs(f: ConditionalFormatRule<Seq<char>>)
    ensures
        xml::attrs_text(format_attrs(f)) == one_attr("type"@, f.rule_type) + one_attr(
            "priority"@,
            text::decimal(f.priority as nat),
        ) + sheetxml::operator_attr(f.operator),
{
    let a = seq![("type"@, f.rule_type)];
    let b = seq![("priority"@, text::decimal(f.priority as nat))];
    let c = some_attr("operator"@, f.operator);
    lemma_attrs_add_up(a, b);
    lemma_attrs_add_up(a + b, c);
    lemma_one("type"@, f.rule_type);
    lemma_one("priority"@, text::decimal(f.priority as nat));
    lemma_operator(f.operator);
}

proof fn lemma_three_assoc(
    before: Seq<char>,
    open: Seq<char>,
    a: Seq<char>,
    b: Seq<char>,
    c: Seq<char>,
    end: Seq<char>,
)
    ensures
        before + open + a + b + c + end == before + (open + (a + b + c) + end),
{
}

proof fn lemma_two_ends(
    outer: Seq<char>,
    t: Seq<char>,
    w: Seq<char>,
    prefix: Seq<char>,
    inside: Seq<char>,
    last: Seq<char>,
)
    ensures
        outer + t + w + "</"@ + prefix + (inside + ">"@ + "</"@) + prefix + last == outer + (t + (w
            + ("</"@ + prefix + inside + ">"@ + ("</"@ + prefix + last)))),
{
}

spec fn format_rest(prefix: Seq<char>, f: ConditionalFormatRule<Seq<char>>) -> Seq<char> {
    cellxml::wrapped(prefix, "formula"@, xml::escaped(f.formula)) + ("</"@ + prefix + "cfRule"@
        + ">"@ + ("</"@ + prefix + "conditionalFormatting>"@))
}

proof fn lemma_format_text(prefix: Seq<char>, f: ConditionalFormatRule<Seq<char>>)
    ensures
        sheetxml::format_element(prefix, f) == xml::written_tag(
            prefix,
            "conditionalFormatting"@,
            seq![("sqref"@, f.range.range_text())],
            ">"@,
        ) + (xml::written_tag(prefix, "cfRule"@, format_attrs(f), ">"@) + format_rest(prefix, f)),
{
    lemma_format_words();
    lemma_format_attrs(f);
    let range = f.range.range_text();
    let priority = text::decimal(f.priority as nat);
    crate::coord::lemma_decimal_plain(f.priority as nat);
    xml::lemma_digits_are_plain(priority);
    lemma_one("sqref"@, range);
    let open = "<"@ + prefix + "conditionalFormatting"@;
    let l0 = " "@ + "sqref"@ + "=\""@;
    let l1 = " "@ + "type"@ + "=\""@;
    let l2 = " "@ + "priority"@ + "=\""@;
    lemma_assoc("<"@ + prefix, "conditionalFormatting"@, l0);
    lemma_attr_behind(open, l0, "sqref"@, range, ">"@ + "<"@);
    lemma_assoc("\""@, ">"@, "<"@);
    let outer = open + one_attr("sqref"@, range) + ">"@;
    lemma_assoc(open + one_attr("sqref"@, range), ">"@, "<"@);
    assert(outer == xml::written_tag(
        prefix,
        "conditionalFormatting"@,
        seq![("sqref"@, range)],
        ">"@,
    ));
    let a = one_attr("type"@, f.rule_type);
    let b = one_attr("priority"@, priority);
    let c = sheetxml::operator_attr(f.operator);
    let inner = outer + "<"@ + prefix + "cfRule"@;
    lemma_assoc(outer + "<"@ + prefix, "cfRule"@, l1);
    lemma_attr_behind(inner, l1, "type"@, f.rule_type, l2);
    lemma_attr_behind(inner + a, l2, "priority"@, priority, Seq::empty());
    let t = "<"@ + prefix + "cfRule"@;
    lemma_three_assoc(outer, t, a, b, c, ">"@);
    assert(outer + t == inner);
    let w = cellxml::wrapped(prefix, "formula"@, xml::escaped(f.formula));
    let tag = xml::written_tag(prefix, "cfRule"@, format_attrs(f), ">"@);
    assert(outer + tag == outer + t + a + b + c + ">"@);
    lemma_two_ends(outer, tag, w, prefix, "cfRule"@, "conditionalFormatting>"@);
}

proof fn lemma_format_reads(f: ConditionalFormatRule<Seq<char>>)
    ensures
        xml::plain_names(format_attrs(f)),
        entries::get(format_attrs(f), "type"@) == Some(f.rule_type),
        entries::get(format_attrs(f), "priority"@) == Some(text::decimal(f.priority as nat)),
        entries::get(format_attrs(f), "operator"@) == if f.operator.len() > 0 {
            Some(f.operator)
        } else {
            None
        },
{
    lemma_format_names();
    let list = format_attrs(f);
    reveal_with_fuel(entries::place, 4);
    assert(list[0] == ("type"@, f.rule_type));
    assert(list[1] == ("priority"@, text::decimal(f.priority as nat)));
    if f.operator.len() > 0 {
        assert(list[2] == ("operator"@, f.operator));
    }
}

/// A written conditional format tells the cells that it is for, its kind, its priority, its
/// operator where it has one, and its formula.
pub proof fn law_written_formats_tell_the_rule(
    prefix: Seq<char>,
    f: ConditionalFormatRule<Seq<char>>,
)
    requires
        xml::plain_prefix(prefix),
    ensures
        ({
            let s = sheetxml::format_element(prefix, f);
            let rule = prefix + "cfRule"@;
            &&& xml::element_attr(s, prefix + "conditionalFormatting"@, "sqref"@) == Some(
                f.range.range_text(),
            )
            &&& xml::element_attr(s, rule, "type"@) == Some(f.rule_type)
            &&& xml::element_attr(s, rule, "priority"@) == Some(
                text::decimal(f.priority as nat),
            )
            &&& f.operator.len() > 0 ==> xml::element_attr(s, rule, "operator"@) == Some(
                f.operator,
            )
            &&& f.operator.len() == 0 ==> xml::element_attr(s, rule, "operator"@) is None
            &&& xml::element_text(s, prefix + "formula"@) == Some(f.formula)
        }),
{
    lemma_format_text(prefix, f);
    lemma_format_names();
    lemma_format_reads(f);
    let outer = seq![("sqref"@, f.range.range_text())];
    let list = format_attrs(f);
    let t0 = xml::written_tag(prefix, "conditionalFormatting"@, outer, ">"@);
    let t1 = xml::written_tag(prefix, "cfRule"@, list, ">"@);
    let rest = format_rest(prefix, f);
    lemma_first_element(prefix, "conditionalFormatting"@, outer, ">"@, t1 + rest, "sqref"@);
    assert(outer.last().0 == "sqref"@);
    lemma_first_element(prefix, "cfRule"@, list, ">"@, rest, "type"@);
    lemma_first_element(prefix, "cfRule"@, list, ">"@, rest, "priority"@);
    lemma_first_element(prefix, "cfRule"@, list, ">"@, rest, "operator"@);
    xml::lemma_under_prefix(prefix, "conditionalFormatting"@, "cfRule"@);
    xml::lemma_begins_with(t0, t1 + rest, prefix + "cfRule"@);
    assert(xml::is_tag(t1));
    assert((t1 + rest)[0] == t1[0]);
    lemma_texts_inside(prefix, "conditionalFormatting"@, outer, t1 + rest, "formula"@);
    assert(rest.len() > 0 && rest[0] == '<') by {
        reveal_strlit("<");
        assert(cellxml::wrapped(prefix, "formula"@, xml::escaped(f.formula))[0] == '<');
    }
    lemma_texts_inside(prefix, "cfRule"@, list, rest, "formula"@);
    let tail = "</"@ + prefix + "cfRule"@ + ">"@ + ("</"@ + prefix + "conditionalFormatting>"@);
    assert(tail.len() > 0 && tail[0] == '<') by {
        reveal_strlit("</");
    }
    lemma_wrapped_text(prefix, "formula"@, f.formula, tail, "formula"@);
}

// ----- Cells -----

/// What is written into a cell reads as what it is to hold: the place of a shared text, the
/// formula and its value, a number, or a text of the cell's own.
pub proof fn law_written_cells_hold_what_is_asked_for(
    prefix: Seq<char>,
    w: cellxml::CellWriteModel,
)
    requires
        xml::plain_prefix(prefix),
    ensures
        ({
            let s = cellxml::payload(prefix, w, None);
            let own = !crate::numbers::is_number(w.value) || w.inline;
            &&& w.shared matches Some(index) ==> xml::element_text(s, prefix + "v"@) == Some(
                text::decimal(index as nat),
            ) && xml::element_text(s, prefix + "f"@) is None
            &&& w.shared is None && w.formula is Some ==> xml::element_text(s, prefix + "f"@)
                == Some(text::drop_leading(w.formula->Some_0, '=')) && xml::element_text(
                s,
                prefix + "v"@,
            ) == Some(w.value)
            &&& w.shared is None && w.formula is None && !own ==> xml::element_text(
                s,
                prefix + "v"@,
            ) == Some(w.value) && xml::element_text(s, prefix + "f"@) is None
            &&& w.shared is None && w.formula is None && own ==> xml::element_text(
                s,
                prefix + "t"@,
            ) == Some(w.value) && xml::element_text(s, prefix + "v"@) is None
                && xml::element_text(s, prefix + "f"@) is None
        }),
{
    let none = Seq::<char>::empty();
    lemma_cell_names();
    let s = cellxml::payload(prefix, w, None);
    assert(xml::marked(none) == Attrs::empty());
    match (w.shared, w.formula) {
        (Some(index), _) => {
            let d = text::decimal(index as nat);
            crate::coord::lemma_decimal_plain(index as nat);
            xml::lemma_digits_are_plain(d);
            lemma_wrapped_text(prefix, "v"@, d, none, "v"@);
            lemma_wrapped_text(prefix, "v"@, d, none, "f"@);
            assert(s + none == s);
        },
        (None, Some(formula)) => {
            let v = cellxml::wrapped(prefix, "v"@, xml::escaped(w.value));
            let f = text::drop_leading(formula, '=');
            assert(v.len() > 0 && v[0] == '<') by {
                reveal_strlit("<");
            }
            lemma_wrapped_text(prefix, "f"@, f, v, "f"@);
            lemma_wrapped_text(prefix, "f"@, f, v, "v"@);
            lemma_wrapped_text(prefix, "v"@, w.value, none, "v"@);
            assert(v + none == v);
        },
        (None, None) => {
            if crate::numbers::is_number(w.value) && !w.inline {
                lemma_wrapped_text(prefix, "v"@, w.value, none, "v"@);
                lemma_wrapped_text(prefix, "v"@, w.value, none, "f"@);
                assert(s + none == s);
            } else {
                lemma_own_text(prefix, w.value, "t"@);
                lemma_own_text(prefix, w.value, "v"@);
                lemma_own_text(prefix, w.value, "f"@);
            }
        },
    }
}

proof fn lemma_cell_names()
    ensures
        xml::plain_name("v"@),
        xml::plain_name("f"@),
        xml::plain_name("is"@),
        xml::plain_name("t"@),
        "v"@ != "f"@ && "t"@ != "v"@ && "t"@ != "f"@,
        "is"@ != "v"@ && "is"@ != "t"@ && "is"@ != "f"@,
{
    reveal_strlit("v");
    reveal_strlit("f");
    reveal_strlit("is");
    reveal_strlit("t");
    assert("v"@[0] == 'v' && "f"@[0] == 'f' && "t"@[0] == 't' && "is"@.len() == 2);
}

proof fn lemma_own_text(prefix: Seq<char>, value: Seq<char>, wanted: Seq<char>)
    requires
        xml::plain_prefix(prefix),
        wanted == "t"@ || wanted == "v"@ || wanted == "f"@,
    ensures
        xml::element_text(
            cellxml::wrapped(
                prefix,
                "is"@,
                cellxml::wrapped(prefix, "t"@, xml::escaped(value)),
            ),
            prefix + wanted,
        ) == if wanted == "t"@ {
            Some(value)
        } else {
            None
        },
{
    lemma_cell_names();
    let none = Seq::<char>::empty();
    let inner = cellxml::wrapped(prefix, "t"@, xml::escaped(value));
    let end = "</"@ + (prefix + "is"@) + ">"@;
    lemma_wrapped_pieces(prefix, "is"@, inner, none);
    lemma_plain_open(prefix, "is"@);
    let t = "<"@ + prefix + "is"@ + ">"@;
    let s = cellxml::wrapped(prefix, "is"@, inner);
    assert(s + none == s);
    assert(end + none == end);
    lemma_assoc(t, inner, end);
    assert(inner.len() > 0 && inner[0] == '<') by {
        reveal_strlit("<");
    }
    assert((inner + end)[0] == inner[0]);
    xml::lemma_under_prefix(prefix, "is"@, wanted);
    xml::lemma_marked_tag(t, inner + end, prefix + wanted);
    lemma_begins_with_bracket(prefix + "is"@, ">"@);
    lemma_wrapped_text(prefix, "t"@, value, end, wanted);
    assert("</"@ + prefix + "is"@ + ">"@ == end) by {
        assert("</"@ + prefix + "is"@ == "</"@ + (prefix + "is"@));
    }
    lemma_no_text_left(prefix, "is"@, wanted);
}

/// Whether the pattern of a cell's type takes the type out of an open tag, and nothing else.
pub open spec fn type_taken_out(tag: Seq<char>) -> bool {
    let bare = pattern::substituted("\\s+t=\"[^\"]*\""@, tag, ""@);
    &&& exists|kind: Seq<char>, inside: Seq<char>| xml::is_tag_of(bare, kind, inside, false)
    &&& xml::tag_name(bare) == xml::tag_name(tag)
    &&& forall|n: Seq<char>| #[trigger]
        xml::tag_attr(bare, n) == if n == "t"@ {
            None
        } else {
            xml::tag_attr(tag, n)
        }
}

proof fn lemma_type_words()
    ensures
        " t=\""@ == " "@ + "t"@ + "=\""@,
        "\">"@ == "\""@ + ">"@,
{
    reveal_strlit(" t=\"");
    reveal_strlit(" ");
    reveal_strlit("t");
    reveal_strlit("=\"");
    reveal_strlit("\">");
    reveal_strlit("\"");
    reveal_strlit(">");
    assert(" t=\""@ =~= " "@ + "t"@ + "=\""@);
    assert("\">"@ =~= "\""@ + ">"@);
}

proof fn lemma_get_pushed(list: Attrs, name: Seq<char>, value: Seq<char>, n: Seq<char>)
    requires
        entries::get(list, name) is None,
    ensures
        entries::get(list.push((name, value)), n) == if n == name {
            Some(value)
        } else {
            entries::get(list, n)
        },
{
    assert(list.push((name, value)).drop_last() == list);
    entries::lemma_place(list, n);
    entries::lemma_place(list.push((name, value)), n);
}

proof fn lemma_typed_attrs(tag: Seq<char>, t: Seq<char>)
    requires
        type_taken_out(tag),
        xml::escaped(t) == t,
    ensures
        xml::tag_attrs(cellxml::with_type(tag, Some(t))) == xml::tag_attrs(
            pattern::substituted("\\s+t=\"[^\"]*\""@, tag, ""@),
        ).push(("t"@, t)),
{
    let bare = pattern::substituted("\\s+t=\"[^\"]*\""@, tag, ""@);
    let (kind, inside) = choose|kind: Seq<char>, inside: Seq<char>|
        xml::is_tag_of(bare, kind, inside, false);
    xml::lemma_tag_of(bare, kind, inside, false);
    lemma_cell_names();
    splice::lemma_attr_right_behind(bare, kind, inside, "t"@, t);
    lemma_type_words();
}

proof fn lemma_typed(tag: Seq<char>, t: Seq<char>, n: Seq<char>)
    requires
        type_taken_out(tag),
        xml::escaped(t) == t,
    ensures
        xml::tag_attr(cellxml::with_type(tag, Some(t)), n) == if n == "t"@ {
            Some(t)
        } else {
            xml::tag_attr(tag, n)
        },
{
    let bare = pattern::substituted("\\s+t=\"[^\"]*\""@, tag, ""@);
    lemma_typed_attrs(tag, t);
    assert(xml::tag_attr(bare, "t"@) is None);
    assert(xml::tag_attr(bare, n) == if n == "t"@ {
        None
    } else {
        xml::tag_attr(tag, n)
    });
    lemma_get_pushed(xml::tag_attrs(bare), "t"@, t, n);
}

/// A cell is written with the type of what it holds: shared and inline texts have one, numbers
/// and the values of formulas have none, and whatever else the tag says stays.
pub proof fn law_written_cells_tell_their_type(tag: Seq<char>, w: cellxml::CellWriteModel)
    requires
        type_taken_out(tag),
    ensures
        ({
            let s = cellxml::typed_tag(tag, w);
            let plain = w.formula is Some || crate::numbers::is_number(w.value);
            &&& w.shared is Some ==> xml::tag_attr(s, "t"@) == Some("s"@)
            &&& w.shared is None && (w.inline || !plain) ==> xml::tag_attr(s, "t"@) == Some(
                "inlineStr"@,
            )
            &&& w.shared is None && !w.inline && plain ==> xml::tag_attr(s, "t"@) is None
            &&& forall|n: Seq<char>|
                n != "t"@ ==> #[trigger] xml::tag_attr(s, n) == xml::tag_attr(tag, n)
        }),
{
    lemma_types();
    let s = cellxml::typed_tag(tag, w);
    lemma_typed(tag, "s"@, "t"@);
    lemma_typed(tag, "inlineStr"@, "t"@);
    assert forall|n: Seq<char>| n != "t"@ implies #[trigger] xml::tag_attr(s, n) == xml::tag_attr(
        tag,
        n,
    ) by {
        lemma_typed(tag, "s"@, n);
        lemma_typed(tag, "inlineStr"@, n);
    }
}

proof fn lemma_types()
    ensures
        xml::escaped("s"@) == "s"@,
        xml::escaped("inlineStr"@) == "inlineStr"@,
{
    reveal_strlit("s");
    reveal_strlit("inlineStr");
    xml::lemma_plain_text("s"@);
    xml::lemma_plain_text("inlineStr"@);
}

// ----- Formats -----

proof fn lemma_fill_words()
    ensures
        "fill>"@ == "fill"@ + ">"@,
        "patternFill patternType=\"solid\">"@ == "patternFill"@ + (" "@ + "patternType"@ + "=\""@)
            + "solid"@ + ("\""@ + ">"@),
        "fgColor rgb=\"FF"@ == "fgColor"@ + (" "@ + "rgb"@ + "=\""@) + "FF"@,
        "\" />"@ == "\""@ + " />"@,
{
    reveal_strlit("fill>");
    reveal_strlit("fill");
    reveal_strlit(">");
    reveal_strlit("patternFill patternType=\"solid\">");
    reveal_strlit("patternFill");
    reveal_strlit("patternType");
    reveal_strlit("solid");
    reveal_strlit(" ");
    reveal_strlit("=\"");
    reveal_strlit("\"");
    reveal_strlit("fgColor rgb=\"FF");
    reveal_strlit("fgColor");
    reveal_strlit("rgb");
    reveal_strlit("FF");
    reveal_strlit("\" />");
    reveal_strlit(" />");
    assert("fill>"@ =~= "fill"@ + ">"@);
    assert("patternFill patternType=\"solid\">"@ =~= "patternFill"@ + (" "@ + "patternType"@
        + "=\""@) + "solid"@ + ("\""@ + ">"@));
    assert("fgColor rgb=\"FF"@ =~= "fgColor"@ + (" "@ + "rgb"@ + "=\""@) + "FF"@);
    assert("\" />"@ =~= "\""@ + " />"@);
}

proof fn lemma_fill_names()
    ensures
        xml::plain_name("fill"@),
        xml::plain_name("patternFill"@),
        xml::plain_name("patternType"@),
        xml::plain_name("fgColor"@),
        xml::plain_name("rgb"@),
        "fill"@ != "patternFill"@ && "fill"@ != "fgColor"@ && "patternFill"@ != "fgColor"@,
        xml::escaped("solid"@) == "solid"@,
{
    reveal_strlit("fill");
    reveal_strlit("patternFill");
    reveal_strlit("patternType");
    reveal_strlit("fgColor");
    reveal_strlit("rgb");
    reveal_strlit("solid");
    assert("fill"@.len() == 4 && "patternFill"@.len() == 11 && "fgColor"@.len() == 7);
    xml::lemma_plain_text("solid"@);
}

proof fn lemma_fill_text(prefix: Seq<char>, color: Seq<char>, tail: Seq<char>)
    ensures
        "<"@ + prefix + "fill>"@ + ("<"@ + prefix + "patternFill patternType=\"solid\">"@) + ("<"@
            + prefix + "fgColor rgb=\"FF"@) + xml::escaped(color) + "\" />"@ + tail
            == xml::written_tag(prefix, "fill"@, Attrs::empty(), ">"@) + (xml::written_tag(
            prefix,
            "patternFill"@,
            seq![("patternType"@, "solid"@)],
            ">"@,
        ) + (xml::written_tag(prefix, "fgColor"@, seq![("rgb"@, "FF"@ + color)], " />"@) + tail)),
{
    lemma_fill_words();
    lemma_fill_names();
    let b = "<"@ + prefix;
    let none = Attrs::empty();
    assert(xml::attrs_text(none) == Seq::<char>::empty());
    let t1 = xml::written_tag(prefix, "fill"@, none, ">"@);
    assert(t1 == b + ("fill"@ + ">"@)) by {
        assert(b + "fill"@ + Seq::<char>::empty() == b + "fill"@);
        lemma_assoc(b, "fill"@, ">"@);
    }
    let l2 = " "@ + "patternType"@ + "=\""@;
    lemma_one("patternType"@, "solid"@);
    lemma_attr_behind(b + "patternFill"@, l2, "patternType"@, "solid"@, ">"@);
    let t2 = xml::written_tag(prefix, "patternFill"@, seq![("patternType"@, "solid"@)], ">"@);
    lemma_five(b, "patternFill"@, l2, "solid"@, "\""@ + ">"@);
    assert(t2 == b + "patternFill patternType=\"solid\">"@);
    let l3 = " "@ + "rgb"@ + "=\""@;
    let v = "FF"@ + color;
    assert(xml::escaped(v) == "FF"@ + xml::escaped(color)) by {
        reveal_strlit("FF");
        xml::lemma_escaped_behind_plain("FF"@, color);
    }
    lemma_one("rgb"@, v);
    lemma_attr_behind(b + "fgColor"@, l3, "rgb"@, v, " />"@);
    let t3 = xml::written_tag(prefix, "fgColor"@, seq![("rgb"@, v)], " />"@);
    lemma_color_pieces(b, "fgColor"@, l3, "FF"@, xml::escaped(color), "\""@ + " />"@);
    let c = b + "fgColor rgb=\"FF"@;
    assert(t3 == c + xml::escaped(color) + "\" />"@);
    lemma_fold(t1, t2, c, xml::escaped(color), "\" />"@, tail);
}

proof fn lemma_five(a: Seq<char>, b: Seq<char>, c: Seq<char>, d: Seq<char>, e: Seq<char>)
    ensures
        a + b + c + d + e == a + (b + c + d + e),
{
}

proof fn lemma_color_pieces(
    a: Seq<char>,
    b: Seq<char>,
    c: Seq<char>,
    d: Seq<char>,
    e: Seq<char>,
    f: Seq<char>,
)
    ensures
        a + b + c + (d + e) + f == a + (b + c + d) + e + f,
{
}

/// A tag with one attribute whose value begins with plain text.
pub proof fn lemma_led_attr_tag(
    prefix: Seq<char>,
    name: Seq<char>,
    attribute: Seq<char>,
    lead: Seq<char>,
    value: Seq<char>,
)
    requires
        xml::plain_prefix(prefix),
        xml::plain_name(name),
        xml::plain_name(attribute),
        xml::escaped(lead + value) == lead + xml::escaped(value),
    ensures
        ({
            let t = "<"@ + prefix + (name + (" "@ + attribute + "=\""@) + lead) + xml::escaped(value)
                + ("\""@ + " />"@);
            &&& xml::is_tag(t)
            &&& xml::tag_name(t) == prefix + name
            &&& xml::tag_attr(t, attribute) == Some(lead + value)
        }),
{
    let b = "<"@ + prefix;
    let lit = " "@ + attribute + "=\""@;
    let v = lead + value;
    let list = seq![(attribute, v)];
    lemma_one(attribute, v);
    lemma_attr_behind(b + name, lit, attribute, v, " />"@);
    lemma_color_pieces(b, name, lit, lead, xml::escaped(value), "\""@ + " />"@);
    xml::lemma_written_tag(prefix, name, list, " />"@);
    assert(list.last().0 == attribute);
}

proof fn lemma_fold(
    t1: Seq<char>,
    t2: Seq<char>,
    c: Seq<char>,
    v: Seq<char>,
    end: Seq<char>,
    tail: Seq<char>,
)
    ensures
        t1 + t2 + c + v + end + tail == t1 + (t2 + (c + v + end + tail)),
{
}

/// A written fill is solid and has the colour that is asked for, white where none is.
pub proof fn law_fills_show_what_is_asked_for(prefix: Seq<char>, i: styles::IntentModel)
    requires
        xml::plain_prefix(prefix),
    ensures
        ({
            let s = styles::fill_element(prefix, i);
            &&& xml::element_attr(s, prefix + "patternFill"@, "patternType"@) == Some("solid"@)
            &&& i.fill_color matches Some(c) ==> xml::element_attr(
                s,
                prefix + "fgColor"@,
                "rgb"@,
            ) == Some("FF"@ + c)
            &&& i.fill_color is None ==> xml::element_attr(s, prefix + "fgColor"@, "rgb"@) == Some(
                "FFFFFFFF"@,
            )
        }),
{
    lemma_fill_names();
    let color = match i.fill_color {
        Some(c) => c,
        None => "FFFFFF"@,
    };
    assert("FF"@ + "FFFFFF"@ == "FFFFFFFF"@) by {
        reveal_strlit("FF");
        reveal_strlit("FFFFFF");
        reveal_strlit("FFFFFFFF");
        assert("FF"@ + "FFFFFF"@ =~= "FFFFFFFF"@);
    }
    let b = styles::tag(prefix, "bgColor indexed=\"64\" />"@);
    let e1 = styles::end_tag(prefix, "patternFill"@);
    let e2 = styles::end_tag(prefix, "fill"@);
    let tail = b + e1 + e2;
    lemma_fill_text(prefix, color, tail);
    let head = styles::tag(prefix, "fill>"@) + styles::tag(
        prefix,
        "patternFill patternType=\"solid\">"@,
    ) + styles::tag(prefix, "fgColor rgb=\"FF"@) + xml::escaped(color) + "\" />"@;
    assert(styles::fill_element(prefix, i) == head + tail) by {
        lemma_assoc(head + b, e1, e2);
        lemma_assoc(head, b, e1);
        lemma_assoc(head, b + e1, e2);
    }
    let none = Attrs::empty();
    let l2 = seq![("patternType"@, "solid"@)];
    let l3 = seq![("rgb"@, "FF"@ + color)];
    let t1 = xml::written_tag(prefix, "fill"@, none, ">"@);
    let t2 = xml::written_tag(prefix, "patternFill"@, l2, ">"@);
    let t3 = xml::written_tag(prefix, "fgColor"@, l3, " />"@);
    lemma_first_element(prefix, "fill"@, none, ">"@, t2 + (t3 + tail), "rgb"@);
    lemma_first_element(prefix, "patternFill"@, l2, ">"@, t3 + tail, "patternType"@);
    lemma_first_element(prefix, "fgColor"@, l3, " />"@, tail, "rgb"@);
    xml::lemma_under_prefix(prefix, "fill"@, "patternFill"@);
    xml::lemma_under_prefix(prefix, "fill"@, "fgColor"@);
    xml::lemma_under_prefix(prefix, "patternFill"@, "fgColor"@);
    xml::lemma_begins_with(t1, t2 + (t3 + tail), prefix + "patternFill"@);
    xml::lemma_begins_with(t1, t2 + (t3 + tail), prefix + "fgColor"@);
    xml::lemma_begins_with(t2, t3 + tail, prefix + "fgColor"@);
    assert(l2.last().0 == "patternType"@ && l3.last().0 == "rgb"@);
}

// ----- Number formats -----

proof fn lemma_number_format_words()
    ensures
        "numFmt numFmtId=\""@ == "numFmt"@ + (" "@ + "numFmtId"@ + "=\""@),
        "\" formatCode=\""@ == "\""@ + (" "@ + "formatCode"@ + "=\""@),
        "\" />"@ == "\""@ + " />"@,
        xml::plain_name("numFmt"@),
        xml::plain_name("numFmtId"@),
        xml::plain_name("formatCode"@),
        "numFmtId"@ != "formatCode"@,
{
    reveal_strlit("numFmt numFmtId=\"");
    reveal_strlit("numFmt");
    reveal_strlit("numFmtId");
    reveal_strlit("\" formatCode=\"");
    reveal_strlit("formatCode");
    reveal_strlit(" ");
    reveal_strlit("=\"");
    reveal_strlit("\"");
    reveal_strlit("\" />");
    reveal_strlit(" />");
    assert("numFmt numFmtId=\""@ =~= "numFmt"@ + (" "@ + "numFmtId"@ + "=\""@));
    assert("\" formatCode=\""@ =~= "\""@ + (" "@ + "formatCode"@ + "=\""@));
    assert("\" />"@ =~= "\""@ + " />"@);
    assert("numFmtId"@.len() == 8 && "formatCode"@.len() == 10);
}

/// A written number format tells its number and its code.
pub proof fn law_written_number_formats_tell_their_code(
    prefix: Seq<char>,
    id: usize,
    code: Seq<char>,
)
    requires
        xml::plain_prefix(prefix),
    ensures
        ({
            let s = styles::number_format_element(prefix, id, code);
            &&& xml::element_attr(s, prefix + "numFmt"@, "numFmtId"@) == Some(
                text::decimal(id as nat),
            )
            &&& xml::element_attr(s, prefix + "numFmt"@, "formatCode"@) == Some(code)
        }),
{
    lemma_number_format_words();
    let d = text::decimal(id as nat);
    crate::coord::lemma_decimal_plain(id as nat);
    xml::lemma_digits_are_plain(d);
    let b = "<"@ + prefix;
    let open = b + "numFmt"@;
    let l1 = " "@ + "numFmtId"@ + "=\""@;
    let l2 = " "@ + "formatCode"@ + "=\""@;
    lemma_assoc(b, "numFmt"@, l1);
    lemma_attr_behind(open, l1, "numFmtId"@, d, l2);
    lemma_attr_behind(open + one_attr("numFmtId"@, d), l2, "formatCode"@, code, " />"@);
    let a = seq![("numFmtId"@, d)];
    let c = seq![("formatCode"@, code)];
    let list = a + c;
    lemma_attrs_add_up(a, c);
    lemma_one("numFmtId"@, d);
    lemma_one("formatCode"@, code);
    lemma_assoc(open, one_attr("numFmtId"@, d), one_attr("formatCode"@, code));
    let none = Seq::<char>::empty();
    let t = xml::written_tag(prefix, "numFmt"@, list, " />"@);
    assert(styles::number_format_element(prefix, id, code) == t);
    assert(t + none == t);
    lemma_first_element(prefix, "numFmt"@, list, " />"@, none, "numFmtId"@);
    lemma_first_element(prefix, "numFmt"@, list, " />"@, none, "formatCode"@);
    reveal_with_fuel(entries::place, 3);
    assert(list[0] == ("numFmtId"@, d) && list[1] == ("formatCode"@, code));
}

// ----- Alignments and cell styles -----

proof fn lemma_alignment_words()
    ensures
        "alignment "@ == "alignment"@ + " "@,
        "wrapText=\"1\""@ == "wrapText"@ + "=\""@ + "1"@ + "\""@,
        xml::plain_name("alignment"@),
        xml::plain_name("horizontal"@),
        xml::plain_name("vertical"@),
        xml::plain_name("wrapText"@),
        "horizontal"@ != "vertical"@ && "horizontal"@ != "wrapText"@ && "vertical"@ != "wrapText"@,
        xml::escaped("1"@) == "1"@,
        xml::escaped("0"@) == "0"@,
{
    reveal_strlit("alignment ");
    reveal_strlit("alignment");
    reveal_strlit(" ");
    reveal_strlit("wrapText=\"1\"");
    reveal_strlit("wrapText");
    reveal_strlit("=\"");
    reveal_strlit("1");
    reveal_strlit("0");
    reveal_strlit("\"");
    reveal_strlit("horizontal");
    reveal_strlit("vertical");
    assert("alignment "@ =~= "alignment"@ + " "@);
    assert("wrapText=\"1\""@ =~= "wrapText"@ + "=\""@ + "1"@ + "\""@);
    assert("horizontal"@.len() == 10 && "vertical"@.len() == 8 && "wrapText"@.len() == 8);
    assert("vertical"@[0] == 'v' && "wrapText"@[0] == 'w');
    xml::lemma_digits_are_plain("1"@);
    xml::lemma_digits_are_plain("0"@);
}

/// Texts with a blank before each.
spec fn spaced(parts: Seq<Seq<char>>) -> Seq<char>
    decreases parts.len(),
{
    if parts.len() == 0 {
        Seq::empty()
    } else {
        spaced(parts.drop_last()) + (" "@ + parts.last())
    }
}

proof fn lemma_spaced(parts: Seq<Seq<char>>)
    requires
        parts.len() > 0,
    ensures
        " "@ + text::joined(parts, " "@) == spaced(parts),
    decreases parts.len(),
{
    if parts.len() == 1 {
        assert(spaced(parts.drop_last()) == Seq::<char>::empty());
        assert(Seq::<char>::empty() + (" "@ + parts[0]) == " "@ + parts[0]);
    } else {
        lemma_spaced(parts.drop_last());
        let x = text::joined(parts.drop_last(), " "@);
        assert(" "@ + (x + " "@ + parts.last()) == " "@ + x + (" "@ + parts.last()));
    }
}

spec fn option_attr(name: Seq<char>, value: Option<Seq<char>>) -> Attrs {
    match value {
        Some(t) => seq![(name, t)],
        None => Seq::empty(),
    }
}

spec fn wrap_value(i: styles::IntentModel) -> Option<Seq<char>> {
    if i.wrap_text == Some(true) {
        Some("1"@)
    } else {
        None
    }
}

spec fn alignment_attrs(i: styles::IntentModel) -> Attrs {
    option_attr("horizontal"@, i.horizontal) + option_attr("vertical"@, i.vertical) + option_attr(
        "wrapText"@,
        wrap_value(i),
    )
}

proof fn lemma_spaced_more(
    parts: Seq<Seq<char>>,
    list: Attrs,
    name: Seq<char>,
    value: Option<Seq<char>>,
)
    requires
        spaced(parts) == xml::attrs_text(list),
    ensures
        ({
            let more = objects::pushed(
                parts,
                match value {
                    Some(t) => Some(name + "=\""@ + xml::escaped(t) + "\""@),
                    None => None,
                },
            );
            &&& spaced(more) == xml::attrs_text(list + option_attr(name, value))
            &&& more.len() == parts.len() + option_attr(name, value).len()
        }),
{
    match value {
        Some(t) => {
            let part = name + "=\""@ + xml::escaped(t) + "\""@;
            assert(parts.push(part).drop_last() == parts);
            assert(" "@ + part == one_attr(name, t));
            lemma_one(name, t);
            lemma_attrs_add_up(list, seq![(name, t)]);
        },
        None => {
            assert(list + Attrs::empty() == list);
        },
    }
}

proof fn lemma_alignment_text(prefix: Seq<char>, i: styles::IntentModel)
    requires
        alignment_attrs(i).len() > 0,
    ensures
        styles::alignment_element(prefix, i) == xml::written_tag(
            prefix,
            "alignment"@,
            alignment_attrs(i),
            " />"@,
        ),
{
    lemma_alignment_words();
    let none = Attrs::empty();
    let start = Seq::<Seq<char>>::empty();
    let a = objects::pushed(start, styles::alignment_part("horizontal"@, i.horizontal));
    let b = objects::pushed(a, styles::alignment_part("vertical"@, i.vertical));
    let c = objects::pushed(
        b,
        if i.wrap_text == Some(true) {
            Some("wrapText=\"1\""@)
        } else {
            None
        },
    );
    assert(spaced(start) == xml::attrs_text(none));
    lemma_spaced_more(start, none, "horizontal"@, i.horizontal);
    let la = option_attr("horizontal"@, i.horizontal);
    assert(none + la == la);
    lemma_spaced_more(a, la, "vertical"@, i.vertical);
    lemma_spaced_more(b, la + option_attr("vertical"@, i.vertical), "wrapText"@, wrap_value(i));
    assert(spaced(c) == xml::attrs_text(alignment_attrs(i)));
    lemma_spaced(c);
    let j = text::joined(c, " "@);
    let open = "<"@ + prefix + "alignment"@;
    lemma_assoc("<"@ + prefix, "alignment"@, " "@);
    lemma_assoc(open, " "@, j);
}

proof fn lemma_alignment_reads(i: styles::IntentModel)
    ensures
        xml::plain_names(alignment_attrs(i)),
        entries::get(alignment_attrs(i), "horizontal"@) == i.horizontal,
        entries::get(alignment_attrs(i), "vertical"@) == i.vertical,
        entries::get(alignment_attrs(i), "wrapText"@) == wrap_value(i),
{
    lemma_alignment_words();
    reveal_with_fuel(entries::place, 4);
    let list = alignment_attrs(i);
    let a = option_attr("horizontal"@, i.horizontal);
    let b = option_attr("vertical"@, i.vertical);
    if let Some(t) = i.horizontal {
        assert(list[0] == ("horizontal"@, t));
    }
    if let Some(t) = i.vertical {
        assert(list[a.len() as int] == ("vertical"@, t));
    }
    if let Some(t) = wrap_value(i) {
        assert(list[(a + b).len() as int] == ("wrapText"@, t));
    }
}

/// A written alignment tells what is asked for, and nothing that is not.
pub proof fn law_alignments_show_what_is_asked_for(prefix: Seq<char>, i: styles::IntentModel)
    requires
        xml::plain_prefix(prefix),
        i.horizontal is Some || i.vertical is Some || i.wrap_text == Some(true),
    ensures
        ({
            let s = styles::alignment_element(prefix, i);
            let name = prefix + "alignment"@;
            &&& xml::element_attr(s, name, "horizontal"@) == i.horizontal
            &&& xml::element_attr(s, name, "vertical"@) == i.vertical
            &&& xml::element_attr(s, name, "wrapText"@) == if i.wrap_text == Some(true) {
                Some("1"@)
            } else {
                None
            }
        }),
{
    assert(alignment_attrs(i).len() > 0);
    lemma_alignment_text(prefix, i);
    lemma_alignment_reads(i);
    lemma_alignment_words();
    let list = alignment_attrs(i);
    let none = Seq::<char>::empty();
    let t = xml::written_tag(prefix, "alignment"@, list, " />"@);
    assert(t + none == t);
    lemma_first_element(prefix, "alignment"@, list, " />"@, none, "horizontal"@);
    lemma_first_element(prefix, "alignment"@, list, " />"@, none, "vertical"@);
    lemma_first_element(prefix, "alignment"@, list, " />"@, none, "wrapText"@);
}

proof fn lemma_style_words()
    ensures
        "xf numFmtId=\""@ == "xf"@ + (" "@ + "numFmtId"@ + "=\""@),
        "\" fontId=\""@ == "\""@ + (" "@ + "fontId"@ + "=\""@),
        "\" fillId=\""@ == "\""@ + (" "@ + "fillId"@ + "=\""@),
        "\" borderId=\""@ == "\""@ + (" "@ + "borderId"@ + "=\""@),
        "\" xfId=\""@ == "\""@ + (" "@ + "xfId"@ + "=\""@),
{
    reveal_strlit("xf numFmtId=\"");
    reveal_strlit("xf");
    reveal_strlit("numFmtId");
    reveal_strlit("\" fontId=\"");
    reveal_strlit("fontId");
    reveal_strlit("\" fillId=\"");
    reveal_strlit("fillId");
    reveal_strlit("\" borderId=\"");
    reveal_strlit("borderId");
    reveal_strlit("\" xfId=\"");
    reveal_strlit("xfId");
    reveal_strlit(" ");
    reveal_strlit("=\"");
    reveal_strlit("\"");
    assert("xf numFmtId=\""@ =~= "xf"@ + (" "@ + "numFmtId"@ + "=\""@));
    assert("\" fontId=\""@ =~= "\""@ + (" "@ + "fontId"@ + "=\""@));
    assert("\" fillId=\""@ =~= "\""@ + (" "@ + "fillId"@ + "=\""@));
    assert("\" borderId=\""@ =~= "\""@ + (" "@ + "borderId"@ + "=\""@));
    assert("\" xfId=\""@ =~= "\""@ + (" "@ + "xfId"@ + "=\""@));
}

spec fn applied() -> Seq<char> {
    " applyNumberFormat=\"1\" applyFont=\"1\" applyFill=\"1\""@
}

proof fn lemma_applied_words()
    ensures
        "\" applyNumberFormat=\"1\" applyFont=\"1\" applyFill=\"1\" applyAlignment="@ == "\""@ + (
        applied() + " applyAlignment="@),
        applied() == one_attr("applyNumberFormat"@, "1"@) + one_attr("applyFont"@, "1"@) + one_attr(
            "applyFill"@,
            "1"@,
        ),
        " applyAlignment="@ + "\"0\" />"@ == one_attr("applyAlignment"@, "0"@) + " />"@,
        " applyAlignment="@ + "\"1\">"@ == one_attr("applyAlignment"@, "1"@) + ">"@,
{
    lemma_alignment_words();
    reveal_strlit("\" applyNumberFormat=\"1\" applyFont=\"1\" applyFill=\"1\" applyAlignment=");
    reveal_strlit(" applyNumberFormat=\"1\" applyFont=\"1\" applyFill=\"1\"");
    reveal_strlit(" applyAlignment=");
    reveal_strlit("\"");
    reveal_strlit(" ");
    reveal_strlit("=\"");
    reveal_strlit("1");
    reveal_strlit("0");
    reveal_strlit("applyNumberFormat");
    reveal_strlit("applyFont");
    reveal_strlit("applyFill");
    reveal_strlit("applyAlignment");
    reveal_strlit("\"0\" />");
    reveal_strlit("\"1\">");
    reveal_strlit(" />");
    reveal_strlit(">");
    assert("\" applyNumberFormat=\"1\" applyFont=\"1\" applyFill=\"1\" applyAlignment="@ =~= "\""@
        + (applied() + " applyAlignment="@));
    assert(applied() =~= one_attr("applyNumberFormat"@, "1"@) + one_attr("applyFont"@, "1"@)
        + one_attr("applyFill"@, "1"@));
    assert(" applyAlignment="@ + "\"0\" />"@ =~= one_attr("applyAlignment"@, "0"@) + " />"@);
    assert(" applyAlignment="@ + "\"1\">"@ =~= one_attr("applyAlignment"@, "1"@) + ">"@);
}

proof fn lemma_style_names()
    ensures
        xml::plain_name("xf"@),
        xml::plain_name("numFmtId"@),
        xml::plain_name("fontId"@),
        xml::plain_name("fillId"@),
        xml::plain_name("borderId"@),
        xml::plain_name("xfId"@),
        "xf"@ != "alignment"@,
        "numFmtId"@ != "fontId"@ && "numFmtId"@ != "fillId"@ && "numFmtId"@ != "borderId"@
            && "numFmtId"@ != "xfId"@,
        "fontId"@ != "fillId"@ && "fontId"@ != "borderId"@ && "fontId"@ != "xfId"@,
        "fillId"@ != "borderId"@ && "fillId"@ != "xfId"@ && "borderId"@ != "xfId"@,
{
    reveal_strlit("xf");
    reveal_strlit("alignment");
    reveal_strlit("numFmtId");
    reveal_strlit("fontId");
    reveal_strlit("fillId");
    reveal_strlit("borderId");
    reveal_strlit("xfId");
    assert("xf"@.len() == 2 && "alignment"@.len() == 9 && "numFmtId"@.len() == 8
        && "fontId"@.len() == 6 && "fillId"@.len() == 6 && "borderId"@.len() == 8 && "xfId"@.len()
        == 4);
    assert("numFmtId"@[0] == 'n' && "borderId"@[0] == 'b');
    assert("fontId"@[1] == 'o' && "fillId"@[1] == 'i');
}

proof fn lemma_applied_names()
    ensures
        xml::plain_name("applyNumberFormat"@),
        xml::plain_name("applyFont"@),
        xml::plain_name("applyFill"@),
        xml::plain_name("applyAlignment"@),
        "applyNumberFormat"@[0] == 'a' && "applyFont"@[0] == 'a' && "applyFill"@[0] == 'a'
            && "applyAlignment"@[0] == 'a',
        "numFmtId"@[0] != 'a' && "fontId"@[0] != 'a' && "fillId"@[0] != 'a' && "borderId"@[0] != 'a'
            && "xfId"@[0] != 'a',
{
    reveal_strlit("applyNumberFormat");
    reveal_strlit("applyFont");
    reveal_strlit("applyFill");
    reveal_strlit("applyAlignment");
    reveal_strlit("numFmtId");
    reveal_strlit("fontId");
    reveal_strlit("fillId");
    reveal_strlit("borderId");
    reveal_strlit("xfId");
}

spec fn base_attrs(b: styles::StyleBase) -> Attrs {
    seq![("numFmtId"@, text::decimal(b.num_fmt_id as nat))] + seq![
        ("fontId"@, text::decimal(b.font_id as nat)),
    ] + seq![("fillId"@, text::decimal(b.fill_id as nat))] + seq![
        ("borderId"@, text::decimal(b.border_id as nat)),
    ] + seq![("xfId"@, text::decimal(b.xf_id as nat))]
}

spec fn applied_attrs(aligned: Seq<char>) -> Attrs {
    seq![("applyNumberFormat"@, "1"@)] + seq![("applyFont"@, "1"@)] + seq![("applyFill"@, "1"@)]
        + seq![("applyAlignment"@, aligned)]
}

proof fn lemma_base_attrs(b: styles::StyleBase)
    ensures
        xml::attrs_text(base_attrs(b)) == one_attr("numFmtId"@, text::decimal(b.num_fmt_id as nat))
            + one_attr("fontId"@, text::decimal(b.font_id as nat)) + one_attr(
            "fillId"@,
            text::decimal(b.fill_id as nat),
        ) + one_attr("borderId"@, text::decimal(b.border_id as nat)) + one_attr(
            "xfId"@,
            text::decimal(b.xf_id as nat),
        ),
{
    let l1 = seq![("numFmtId"@, text::decimal(b.num_fmt_id as nat))];
    let l2 = seq![("fontId"@, text::decimal(b.font_id as nat))];
    let l3 = seq![("fillId"@, text::decimal(b.fill_id as nat))];
    let l4 = seq![("borderId"@, text::decimal(b.border_id as nat))];
    let l5 = seq![("xfId"@, text::decimal(b.xf_id as nat))];
    lemma_attrs_add_up(l1, l2);
    lemma_attrs_add_up(l1 + l2, l3);
    lemma_attrs_add_up(l1 + l2 + l3, l4);
    lemma_attrs_add_up(l1 + l2 + l3 + l4, l5);
    lemma_one("numFmtId"@, text::decimal(b.num_fmt_id as nat));
    lemma_one("fontId"@, text::decimal(b.font_id as nat));
    lemma_one("fillId"@, text::decimal(b.fill_id as nat));
    lemma_one("borderId"@, text::decimal(b.border_id as nat));
    lemma_one("xfId"@, text::decimal(b.xf_id as nat));
}

proof fn lemma_applied_attrs(aligned: Seq<char>)
    ensures
        xml::attrs_text(applied_attrs(aligned)) == applied() + one_attr("applyAlignment"@, aligned),
{
    lemma_applied_words();
    let l1 = seq![("applyNumberFormat"@, "1"@)];
    let l2 = seq![("applyFont"@, "1"@)];
    let l3 = seq![("applyFill"@, "1"@)];
    let l4 = seq![("applyAlignment"@, aligned)];
    lemma_attrs_add_up(l1, l2);
    lemma_attrs_add_up(l1 + l2, l3);
    lemma_attrs_add_up(l1 + l2 + l3, l4);
    lemma_one("applyNumberFormat"@, "1"@);
    lemma_one("applyFont"@, "1"@);
    lemma_one("applyFill"@, "1"@);
    lemma_one("applyAlignment"@, aligned);
}

proof fn lemma_number(n: nat)
    ensures
        xml::escaped(text::decimal(n)) == text::decimal(n),
{
    crate::coord::lemma_decimal_plain(n);
    xml::lemma_digits_are_plain(text::decimal(n));
}

proof fn lemma_base_text(prefix: Seq<char>, b: styles::StyleBase, more: Seq<char>)
    ensures
        "<"@ + prefix + "xf numFmtId=\""@ + text::decimal(b.num_fmt_id as nat) + "\" fontId=\""@
            + text::decimal(b.font_id as nat) + "\" fillId=\""@ + text::decimal(b.fill_id as nat)
            + "\" borderId=\""@ + text::decimal(b.border_id as nat) + "\" xfId=\""@ + text::decimal(
            b.xf_id as nat,
        ) + ("\""@ + more) == "<"@ + prefix + "xf"@ + xml::attrs_text(base_attrs(b)) + more,
{
    lemma_style_words();
    lemma_base_attrs(b);
    let d1 = text::decimal(b.num_fmt_id as nat);
    let d2 = text::decimal(b.font_id as nat);
    let d3 = text::decimal(b.fill_id as nat);
    let d4 = text::decimal(b.border_id as nat);
    let d5 = text::decimal(b.xf_id as nat);
    lemma_number(b.num_fmt_id as nat);
    lemma_number(b.font_id as nat);
    lemma_number(b.fill_id as nat);
    lemma_number(b.border_id as nat);
    lemma_number(b.xf_id as nat);
    let open = "<"@ + prefix + "xf"@;
    let l1 = " "@ + "numFmtId"@ + "=\""@;
    let l2 = " "@ + "fontId"@ + "=\""@;
    let l3 = " "@ + "fillId"@ + "=\""@;
    let l4 = " "@ + "borderId"@ + "=\""@;
    let l5 = " "@ + "xfId"@ + "=\""@;
    let a1 = one_attr("numFmtId"@, d1);
    let a2 = one_attr("fontId"@, d2);
    let a3 = one_attr("fillId"@, d3);
    let a4 = one_attr("borderId"@, d4);
    let a5 = one_attr("xfId"@, d5);
    lemma_assoc("<"@ + prefix, "xf"@, l1);
    lemma_attr_behind(open, l1, "numFmtId"@, d1, l2);
    lemma_attr_behind(open + a1, l2, "fontId"@, d2, l3);
    lemma_attr_behind(open + a1 + a2, l3, "fillId"@, d3, l4);
    lemma_attr_behind(open + a1 + a2 + a3, l4, "borderId"@, d4, l5);
    lemma_attr_behind(open + a1 + a2 + a3 + a4, l5, "xfId"@, d5, more);
    lemma_six(open, a1, a2, a3, a4, a5);
}

proof fn lemma_six(
    a: Seq<char>,
    b: Seq<char>,
    c: Seq<char>,
    d: Seq<char>,
    e: Seq<char>,
    f: Seq<char>,
)
    ensures
        a + b + c + d + e + f == a + (b + c + d + e + f),
{
}

proof fn lemma_style_text(prefix: Seq<char>, b: styles::StyleBase, i: styles::IntentModel)
    ensures
        ({
            let alignment = styles::alignment_element(prefix, i);
            let list = base_attrs(b) + applied_attrs(
                if alignment.len() == 0 {
                    "0"@
                } else {
                    "1"@
                },
            );
            styles::style_element(prefix, b, i) == if alignment.len() == 0 {
                xml::written_tag(prefix, "xf"@, list, " />"@)
            } else {
                xml::written_tag(prefix, "xf"@, list, ">"@) + (alignment + styles::end_tag(
                    prefix,
                    "xf"@,
                ))
            }
        }),
{
    lemma_applied_words();
    let alignment = styles::alignment_element(prefix, i);
    let aligned = if alignment.len() == 0 {
        "0"@
    } else {
        "1"@
    };
    let more = applied() + " applyAlignment="@;
    lemma_base_text(prefix, b, more);
    lemma_applied_attrs(aligned);
    lemma_attrs_add_up(base_attrs(b), applied_attrs(aligned));
    let open = "<"@ + prefix + "xf"@;
    let x = xml::attrs_text(base_attrs(b));
    let y = one_attr("applyAlignment"@, aligned);
    let p = " applyAlignment="@;
    if alignment.len() == 0 {
        lemma_style_end(open, x, applied(), p, "\"0\" />"@, y, " />"@, Seq::empty());
        assert("\"0\" />"@ + Seq::<char>::empty() == "\"0\" />"@);
        assert(open + (x + (applied() + y)) + " />"@ + Seq::<char>::empty() == open + (x + (
        applied() + y)) + " />"@);
    } else {
        let rest = alignment + styles::end_tag(prefix, "xf"@);
        lemma_style_end(open, x, applied(), p, "\"1\">"@, y, ">"@, rest);
        lemma_assoc("\"1\">"@, alignment, styles::end_tag(prefix, "xf"@));
    }
}

proof fn lemma_style_end(
    open: Seq<char>,
    x: Seq<char>,
    a: Seq<char>,
    p: Seq<char>,
    q: Seq<char>,
    y: Seq<char>,
    end: Seq<char>,
    rest: Seq<char>,
)
    requires
        p + q == y + end,
    ensures
        open + x + (a + p) + (q + rest) == open + (x + (a + y)) + end + rest,
{
    assert(open + x + (a + p) + (q + rest) == open + x + a + (p + q) + rest);
    assert(open + x + a + (y + end) + rest == open + (x + (a + y)) + end + rest);
}

proof fn lemma_get_before(a: Attrs, b: Attrs, n: Seq<char>)
    requires
        forall|i: int| 0 <= i < b.len() ==> (#[trigger] b[i]).0 != n,
    ensures
        entries::get(a + b, n) == entries::get(a, n),
    decreases b.len(),
{
    if b.len() == 0 {
        assert(a + b == a);
    } else {
        assert(b[b.len() - 1].0 != n);
        assert((a + b).last() == b.last());
        assert((a + b).drop_last() == a + b.drop_last());
        assert forall|i: int| 0 <= i < b.drop_last().len() implies (
        #[trigger] b.drop_last()[i]).0 != n by {
            assert(b[i].0 != n);
        }
        lemma_get_before(a, b.drop_last(), n);
        entries::lemma_place(a + b.drop_last(), n);
        entries::lemma_place(a, n);
    }
}

proof fn lemma_style_reads(b: styles::StyleBase, aligned: Seq<char>)
    ensures
        ({
            let list = base_attrs(b) + applied_attrs(aligned);
            &&& xml::plain_names(list)
            &&& entries::get(list, "numFmtId"@) == Some(text::decimal(b.num_fmt_id as nat))
            &&& entries::get(list, "fontId"@) == Some(text::decimal(b.font_id as nat))
            &&& entries::get(list, "fillId"@) == Some(text::decimal(b.fill_id as nat))
            &&& entries::get(list, "borderId"@) == Some(text::decimal(b.border_id as nat))
            &&& entries::get(list, "xfId"@) == Some(text::decimal(b.xf_id as nat))
        }),
{
    lemma_style_names();
    lemma_applied_names();
    let base = base_attrs(b);
    let more = applied_attrs(aligned);
    assert(more[0].0 == "applyNumberFormat"@ && more[1].0 == "applyFont"@ && more[2].0
        == "applyFill"@ && more[3].0 == "applyAlignment"@);
    assert forall|i: int| 0 <= i < more.len() implies (#[trigger] more[i]).0[0] == 'a' by {}
    lemma_get_before(base, more, "numFmtId"@);
    lemma_get_before(base, more, "fontId"@);
    lemma_get_before(base, more, "fillId"@);
    lemma_get_before(base, more, "borderId"@);
    lemma_get_before(base, more, "xfId"@);
    reveal_with_fuel(entries::place, 6);
    assert(base[0] == ("numFmtId"@, text::decimal(b.num_fmt_id as nat)));
    assert(base[1] == ("fontId"@, text::decimal(b.font_id as nat)));
    assert(base[2] == ("fillId"@, text::decimal(b.fill_id as nat)));
    assert(base[3] == ("borderId"@, text::decimal(b.border_id as nat)));
    assert(base[4] == ("xfId"@, text::decimal(b.xf_id as nat)));
}

/// A written cell style names the number format, the font, the fill and the border that it is
/// made of, and holds the alignment that is asked for.
pub proof fn law_written_styles_name_their_parts(
    prefix: Seq<char>,
    b: styles::StyleBase,
    i: styles::IntentModel,
)
    requires
        xml::plain_prefix(prefix),
    ensures
        ({
            let s = styles::style_element(prefix, b, i);
            let name = prefix + "xf"@;
            let inner = prefix + "alignment"@;
            &&& xml::element_attr(s, name, "numFmtId"@) == Some(
                text::decimal(b.num_fmt_id as nat),
            )
            &&& xml::element_attr(s, name, "fontId"@) == Some(text::decimal(b.font_id as nat))
            &&& xml::element_attr(s, name, "fillId"@) == Some(text::decimal(b.fill_id as nat))
            &&& xml::element_attr(s, name, "borderId"@) == Some(
                text::decimal(b.border_id as nat),
            )
            &&& xml::element_attr(s, name, "xfId"@) == Some(text::decimal(b.xf_id as nat))
            &&& i.horizontal is Some || i.vertical is Some || i.wrap_text == Some(true) ==> {
                &&& xml::element_attr(s, inner, "horizontal"@) == i.horizontal
                &&& xml::element_attr(s, inner, "vertical"@) == i.vertical
                &&& xml::element_attr(s, inner, "wrapText"@) == if i.wrap_text == Some(true) {
                    Some("1"@)
                } else {
                    None
                }
            }
        }),
{
    lemma_style_text(prefix, b, i);
    lemma_style_names();
    lemma_alignment_words();
    let alignment = styles::alignment_element(prefix, i);
    let aligned = if alignment.len() == 0 {
        "0"@
    } else {
        "1"@
    };
    let list = base_attrs(b) + applied_attrs(aligned);
    lemma_style_reads(b, aligned);
    let end = if alignment.len() == 0 {
        " />"@
    } else {
        ">"@
    };
    let rest = if alignment.len() == 0 {
        Seq::empty()
    } else {
        alignment + styles::end_tag(prefix, "xf"@)
    };
    let t = xml::written_tag(prefix, "xf"@, list, end);
    assert(t + Seq::<char>::empty() == t);
    assert(styles::style_element(prefix, b, i) == t + rest);
    lemma_first_element(prefix, "xf"@, list, end, rest, "numFmtId"@);
    lemma_first_element(prefix, "xf"@, list, end, rest, "fontId"@);
    lemma_first_element(prefix, "xf"@, list, end, rest, "fillId"@);
    lemma_first_element(prefix, "xf"@, list, end, rest, "borderId"@);
    lemma_first_element(prefix, "xf"@, list, end, rest, "xfId"@);
    if i.horizontal is Some || i.vertical is Some || i.wrap_text == Some(true) {
        let al = alignment_attrs(i);
        assert(al.len() > 0);
        lemma_alignment_text(prefix, i);
        lemma_alignment_reads(i);
        lemma_begins_with_bracket(prefix, "alignment"@);
        let after = styles::end_tag(prefix, "xf"@);
        lemma_first_element(prefix, "alignment"@, al, " />"@, after, "horizontal"@);
        lemma_first_element(prefix, "alignment"@, al, " />"@, after, "vertical"@);
        lemma_first_element(prefix, "alignment"@, al, " />"@, after, "wrapText"@);
        assert(alignment.len() > 0);
        xml::lemma_under_prefix(prefix, "xf"@, "alignment"@);
        xml::lemma_begins_with(t, rest, prefix + "alignment"@);
    }
}

// ----- Comments -----

/// The texts of all elements of a name, in turn.
pub open spec fn texts_named(list: Attrs, name: Seq<char>) -> Seq<Seq<char>>
    decreases list.len(),
{
    if list.len() == 0 {
        Seq::empty()
    } else {
        (if xml::tag_name(list[0].0) == name {
            seq![list[0].1]
        } else {
            Seq::empty()
        }) + texts_named(list.skip(1), name)
    }
}

/// What an attribute is in all elements of a name, in turn.
pub open spec fn attrs_named(list: Attrs, name: Seq<char>, attribute: Seq<char>) -> Seq<
    Option<Seq<char>>,
>
    decreases list.len(),
{
    if list.len() == 0 {
        Seq::empty()
    } else {
        (if xml::tag_name(list[0].0) == name {
            seq![xml::tag_attr(list[0].0, attribute)]
        } else {
            Seq::empty()
        }) + attrs_named(list.skip(1), name, attribute)
    }
}

proof fn lemma_next_text(t: Seq<char>, value: Seq<char>, rest: Seq<char>, name: Seq<char>)
    requires
        xml::is_tag(t),
        rest.len() == 0 || rest[0] == '<',
    ensures
        texts_named(xml::marked(t + xml::escaped(value) + rest), name) == (if xml::tag_name(t)
            == name {
            seq![value]
        } else {
            Seq::empty()
        }) + texts_named(xml::marked(rest), name),
        attrs_named(xml::marked(t + xml::escaped(value) + rest), name, "ref"@) == (
        if xml::tag_name(t) == name {
            seq![xml::tag_attr(t, "ref"@)]
        } else {
            Seq::empty()
        }) + attrs_named(xml::marked(rest), name, "ref"@),
{
    xml::lemma_marked(t, value, rest, name);
    let all = seq![(t, value)] + xml::marked(rest);
    assert(all.skip(1) == xml::marked(rest));
    assert(all[0] == (t, value));
}

proof fn lemma_empty_text()
    ensures
        xml::escaped(Seq::<char>::empty()) == Seq::<char>::empty(),
{
    xml::lemma_plain_text(Seq::<char>::empty());
}

/// A tag that is not looked for, with another one right behind it.
proof fn lemma_skipped(t: Seq<char>, rest: Seq<char>, name: Seq<char>)
    requires
        xml::is_tag(t),
        xml::tag_name(t) != name,
        rest.len() == 0 || rest[0] == '<',
    ensures
        texts_named(xml::marked(t + rest), name) == texts_named(xml::marked(rest), name),
        attrs_named(xml::marked(t + rest), name, "ref"@) == attrs_named(
            xml::marked(rest),
            name,
            "ref"@,
        ),
        (t + rest).len() > 0 && (t + rest)[0] == '<',
{
    let none = Seq::<char>::empty();
    lemma_empty_text();
    assert(t + none + rest == t + rest);
    lemma_next_text(t, none, rest, name);
    assert(Seq::<Seq<char>>::empty() + texts_named(xml::marked(rest), name) == texts_named(
        xml::marked(rest),
        name,
    ));
    assert(Seq::<Option<Seq<char>>>::empty() + attrs_named(xml::marked(rest), name, "ref"@)
        == attrs_named(xml::marked(rest), name, "ref"@));
}

proof fn lemma_comment_words()
    ensures
        "<comment ref=\""@ == "<"@ + Seq::empty() + "comment"@ + (" "@ + "ref"@ + "=\""@),
        "\" authorId=\"0\"><text><r><t>"@ == "\""@ + (" "@ + "authorId"@ + "=\""@ + "0"@ + "\""@
            + ">"@ + ("<text>"@ + ("<r>"@ + "<t>"@))),
        "</t></r></text></comment>"@ == "</t>"@ + ("</r>"@ + ("</text>"@ + "</comment>"@)),
        xml::escaped("0"@) == "0"@,
{
    reveal_strlit("<comment ref=\"");
    reveal_strlit("<");
    reveal_strlit("comment");
    reveal_strlit(" ");
    reveal_strlit("ref");
    reveal_strlit("=\"");
    reveal_strlit("\" authorId=\"0\"><text><r><t>");
    reveal_strlit("\"");
    reveal_strlit("authorId");
    reveal_strlit("0");
    reveal_strlit(">");
    reveal_strlit("<text>");
    reveal_strlit("<r>");
    reveal_strlit("<t>");
    reveal_strlit("</t></r></text></comment>");
    reveal_strlit("</t>");
    reveal_strlit("</r>");
    reveal_strlit("</text>");
    reveal_strlit("</comment>");
    assert("<comment ref=\""@ =~= "<"@ + Seq::empty() + "comment"@ + (" "@ + "ref"@ + "=\""@));
    assert("\" authorId=\"0\"><text><r><t>"@ =~= "\""@ + (" "@ + "authorId"@ + "=\""@ + "0"@
        + "\""@ + ">"@ + ("<text>"@ + ("<r>"@ + "<t>"@))));
    assert("</t></r></text></comment>"@ =~= "</t>"@ + ("</r>"@ + ("</text>"@ + "</comment>"@)));
    xml::lemma_digits_are_plain("0"@);
}

proof fn lemma_short_tags()
    ensures
        xml::is_tag("<text>"@) && xml::tag_name("<text>"@) == "text"@,
        xml::is_tag("<r>"@) && xml::tag_name("<r>"@) == "r"@,
        xml::is_tag("<t>"@) && xml::tag_name("<t>"@) == "t"@,
{
    let none = Seq::<char>::empty();
    reveal_strlit("<text>");
    reveal_strlit("<r>");
    reveal_strlit("<t>");
    reveal_strlit("<");
    reveal_strlit(">");
    reveal_strlit("text");
    reveal_strlit("r");
    reveal_strlit("t");
    lemma_plain_open(none, "text"@);
    lemma_plain_open(none, "r"@);
    lemma_plain_open(none, "t"@);
    assert("<text>"@ =~= "<"@ + none + "text"@ + ">"@);
    assert("<r>"@ =~= "<"@ + none + "r"@ + ">"@);
    assert("<t>"@ =~= "<"@ + none + "t"@ + ">"@);
    assert(none + "text"@ =~= "text"@);
    assert(none + "r"@ =~= "r"@);
    assert(none + "t"@ =~= "t"@);
}

proof fn lemma_short_ends()
    ensures
        xml::is_tag("</t>"@) && xml::tag_name("</t>"@) == Seq::<char>::empty(),
        xml::is_tag("</r>"@) && xml::tag_name("</r>"@) == Seq::<char>::empty(),
        xml::is_tag("</text>"@) && xml::tag_name("</text>"@) == Seq::<char>::empty(),
        xml::is_tag("</comment>"@) && xml::tag_name("</comment>"@) == Seq::<char>::empty(),
{
    reveal_strlit("</t>");
    reveal_strlit("</r>");
    reveal_strlit("</text>");
    reveal_strlit("</comment>");
    reveal_strlit("</");
    reveal_strlit(">");
    reveal_strlit("text");
    reveal_strlit("r");
    reveal_strlit("t");
    reveal_strlit("comment");
    xml::lemma_end_tag("t"@);
    xml::lemma_end_tag("r"@);
    xml::lemma_end_tag("text"@);
    xml::lemma_end_tag("comment"@);
    assert("</t>"@ =~= "</"@ + "t"@ + ">"@);
    assert("</r>"@ =~= "</"@ + "r"@ + ">"@);
    assert("</text>"@ =~= "</"@ + "text"@ + ">"@);
    assert("</comment>"@ =~= "</"@ + "comment"@ + ">"@);
}

proof fn lemma_comment_names()
    ensures
        xml::plain_name("comment"@),
        xml::plain_name("ref"@),
        xml::plain_name("authorId"@),
        "ref"@ != "authorId"@,
        "comment"@ != "t"@ && "text"@ != "t"@ && "r"@ != "t"@,
        "comment"@ != "text"@ && "comment"@ != "r"@,
        "t"@.len() > 0 && "comment"@.len() > 0,
{
    reveal_strlit("comment");
    reveal_strlit("ref");
    reveal_strlit("authorId");
    reveal_strlit("t");
    reveal_strlit("r");
    reveal_strlit("text");
    assert("ref"@.len() == 3 && "authorId"@.len() == 8 && "comment"@.len() == 7 && "text"@.len()
        == 4 && "r"@.len() == 1 && "t"@.len() == 1);
    assert("r"@[0] == 'r' && "t"@[0] == 't');
}

spec fn comment_tag(place: Seq<char>) -> Seq<char> {
    xml::written_tag(
        Seq::empty(),
        "comment"@,
        seq![("ref"@, place)] + seq![("authorId"@, "0"@)],
        ">"@,
    )
}

proof fn lemma_comment_tag(place: Seq<char>)
    ensures
        xml::is_tag(comment_tag(place)),
        xml::tag_name(comment_tag(place)) == "comment"@,
        xml::tag_attr(comment_tag(place), "ref"@) == Some(place),
{
    lemma_comment_names();
    let none = Seq::<char>::empty();
    let list = seq![("ref"@, place)] + seq![("authorId"@, "0"@)];
    xml::lemma_written_tag(none, "comment"@, list, ">"@);
    assert(none + "comment"@ =~= "comment"@);
    reveal_with_fuel(entries::place, 3);
    assert(list[0] == ("ref"@, place) && list[1] == ("authorId"@, "0"@));
}

spec fn comment_inside() -> Seq<char> {
    "<text>"@ + ("<r>"@ + "<t>"@)
}

spec fn comment_end() -> Seq<char> {
    "</t>"@ + ("</r>"@ + ("</text>"@ + "</comment>"@))
}

proof fn lemma_comment_text(before: Seq<char>, place: Seq<char>, value: Seq<char>)
    ensures
        before + "<comment ref=\""@ + xml::escaped(place) + "\" authorId=\"0\"><text><r><t>"@
            + value + "</t></r></text></comment>"@ == before + (comment_tag(place)
            + comment_inside() + value + comment_end()),
{
    lemma_comment_words();
    lemma_one("ref"@, place);
    lemma_one("authorId"@, "0"@);
    lemma_attrs_add_up(seq![("ref"@, place)], seq![("authorId"@, "0"@)]);
    let open = "<"@ + Seq::empty() + "comment"@;
    let lit = " "@ + "ref"@ + "=\""@;
    let a1 = one_attr("ref"@, place);
    let a2 = one_attr("authorId"@, "0"@);
    lemma_attr_behind(open, lit, "ref"@, place, a2 + ">"@ + comment_inside());
    lemma_assoc(before, open, lit);
    lemma_comment_pieces(before, open, lit, xml::escaped(place), a1, a2, comment_inside(), value);
}

proof fn lemma_comment_pieces(
    before: Seq<char>,
    open: Seq<char>,
    lit: Seq<char>,
    v: Seq<char>,
    a1: Seq<char>,
    a2: Seq<char>,
    inside: Seq<char>,
    value: Seq<char>,
)
    requires
        open + lit + v + ("\""@ + (a2 + ">"@ + inside)) == open + a1 + (a2 + ">"@ + inside),
    ensures
        before + (open + lit) + v + ("\""@ + (a2 + ">"@ + inside)) + value + comment_end()
            == before + (open + (a1 + a2) + ">"@ + inside + value + comment_end()),
{
    let tail = "\""@ + (a2 + ">"@ + inside);
    assert(before + (open + lit) + v + tail == before + (open + lit + v + tail));
    assert(open + a1 + (a2 + ">"@ + inside) == open + (a1 + a2) + ">"@ + inside);
    let x = open + (a1 + a2) + ">"@ + inside;
    let end = comment_end();
    lemma_assoc(before, x, value);
    lemma_assoc(before, x + value, end);
}

/// One comment, with what follows it.
proof fn lemma_comment_reads(place: Seq<char>, value: Seq<char>, rest: Seq<char>)
    requires
        rest.len() == 0 || rest[0] == '<',
    ensures
        ({
            let s = comment_tag(place) + comment_inside() + xml::escaped(value) + comment_end()
                + rest;
            &&& texts_named(xml::marked(s), "t"@) == seq![value] + texts_named(
                xml::marked(rest),
                "t"@,
            )
            &&& attrs_named(xml::marked(s), "comment"@, "ref"@) == seq![Some(place)]
                + attrs_named(xml::marked(rest), "comment"@, "ref"@)
            &&& s.len() > 0 && s[0] == '<'
        }),
{
    lemma_comment_tag(place);
    lemma_short_tags();
    lemma_short_ends();
    lemma_comment_names();
    let v = xml::escaped(value);
    let r1 = "</comment>"@ + rest;
    let r2 = "</text>"@ + r1;
    let r3 = "</r>"@ + r2;
    let r4 = "</t>"@ + r3;
    let none = Seq::<char>::empty();
    lemma_skipped("</comment>"@, rest, "t"@);
    lemma_skipped("</comment>"@, rest, "comment"@);
    lemma_skipped("</text>"@, r1, "t"@);
    lemma_skipped("</text>"@, r1, "comment"@);
    lemma_skipped("</r>"@, r2, "t"@);
    lemma_skipped("</r>"@, r2, "comment"@);
    lemma_skipped("</t>"@, r3, "t"@);
    lemma_skipped("</t>"@, r3, "comment"@);
    let r5 = "<t>"@ + v + r4;
    lemma_next_text("<t>"@, value, r4, "t"@);
    lemma_next_text("<t>"@, value, r4, "comment"@);
    assert(r5[0] == "<t>"@[0]);
    let r6 = "<r>"@ + r5;
    let r7 = "<text>"@ + r6;
    lemma_skipped("<r>"@, r5, "t"@);
    lemma_skipped("<r>"@, r5, "comment"@);
    lemma_skipped("<text>"@, r6, "t"@);
    lemma_skipped("<text>"@, r6, "comment"@);
    let t = comment_tag(place);
    lemma_skipped(t, r7, "t"@);
    lemma_empty_text();
    lemma_next_text(t, none, r7, "comment"@);
    assert(t + none + r7 == t + r7);
    assert(attrs_named(xml::marked(r7), "comment"@, "ref"@) == attrs_named(
        xml::marked(rest),
        "comment"@,
        "ref"@,
    )) by {
        assert(Seq::<Option<Seq<char>>>::empty() + attrs_named(
            xml::marked(r4),
            "comment"@,
            "ref"@,
        ) == attrs_named(xml::marked(r4), "comment"@, "ref"@));
    }
    lemma_comment_nested(t, v, rest);
}

proof fn lemma_comment_nested(t: Seq<char>, v: Seq<char>, rest: Seq<char>)
    ensures
        t + comment_inside() + v + comment_end() + rest == t + ("<text>"@ + ("<r>"@ + ("<t>"@ + v + (
        "</t>"@ + ("</r>"@ + ("</text>"@ + ("</comment>"@ + rest))))))),
{
    let e = comment_end() + rest;
    assert(e == "</t>"@ + ("</r>"@ + ("</text>"@ + ("</comment>"@ + rest))));
    assert(t + comment_inside() + v + comment_end() + rest == t + (comment_inside() + v + e));
    assert(comment_inside() + v + e == "<text>"@ + ("<r>"@ + ("<t>"@ + v + e)));
}

spec fn comment_texts(list: Seq<CellComment<Seq<char>>>) -> Seq<Seq<char>> {
    Seq::new(list.len(), |i: int| list[i].text)
}

spec fn comment_places(list: Seq<CellComment<Seq<char>>>) -> Seq<Option<Seq<char>>> {
    Seq::new(list.len(), |i: int| Some(crate::coord::a1_text(list[i].key.row, list[i].key.col)))
}

#[verifier::opaque]
spec fn heard(s: Seq<char>) -> Seq<Seq<char>> {
    texts_named(xml::marked(s), "t"@)
}

#[verifier::opaque]
spec fn seen(s: Seq<char>) -> Seq<Option<Seq<char>>> {
    attrs_named(xml::marked(s), "comment"@, "ref"@)
}

#[verifier::opaque]
spec fn comment_one(c: CellComment<Seq<char>>) -> Seq<char> {
    comment_tag(crate::coord::a1_text(c.key.row, c.key.col)) + comment_inside() + xml::escaped(
        c.text,
    ) + comment_end()
}

proof fn lemma_comment_last(list: Seq<CellComment<Seq<char>>>)
    requires
        list.len() > 0,
    ensures
        partxml::comment_elements(list) == partxml::comment_elements(list.drop_last())
            + comment_one(list.last()),
{
    reveal(comment_one);
    let c = list.last();
    lemma_comment_text(
        partxml::comment_elements(list.drop_last()),
        crate::coord::a1_text(c.key.row, c.key.col),
        xml::escaped(c.text),
    );
}

proof fn lemma_comment_heard(c: CellComment<Seq<char>>, rest: Seq<char>)
    requires
        rest.len() == 0 || rest[0] == '<',
    ensures
        heard(comment_one(c) + rest) == seq![c.text] + heard(rest),
        seen(comment_one(c) + rest) == seq![
            Some(crate::coord::a1_text(c.key.row, c.key.col)),
        ] + seen(rest),
        (comment_one(c) + rest).len() > 0,
        (comment_one(c) + rest)[0] == '<',
{
    reveal(heard);
    reveal(seen);
    reveal(comment_one);
    lemma_comment_reads(crate::coord::a1_text(c.key.row, c.key.col), c.text, rest);
}

proof fn lemma_comments_read(list: Seq<CellComment<Seq<char>>>, rest: Seq<char>)
    requires
        rest.len() == 0 || rest[0] == '<',
    ensures
        heard(partxml::comment_elements(list) + rest) == comment_texts(list) + heard(rest),
        seen(partxml::comment_elements(list) + rest) == comment_places(list) + seen(rest),
    decreases list.len(),
{
    if list.len() == 0 {
        assert(partxml::comment_elements(list) + rest == rest);
        assert(comment_texts(list) + heard(rest) == heard(rest));
        assert(comment_places(list) + seen(rest) == seen(rest));
    } else {
        let c = list.last();
        let place = crate::coord::a1_text(c.key.row, c.key.col);
        let fewer = list.drop_last();
        let before = partxml::comment_elements(fewer);
        let one = comment_one(c);
        lemma_comment_last(list);
        lemma_comment_heard(c, rest);
        lemma_assoc(before, one, rest);
        lemma_comments_read(fewer, one + rest);
        let x = heard(rest);
        let y = seen(rest);
        assert(comment_texts(fewer) + (seq![c.text] + x) == comment_texts(list) + x);
        assert(comment_places(fewer) + (seq![Some(place)] + y) == comment_places(list) + y);
    }
}

/// The written comments name the cell of each comment in turn, and tell its text.
pub proof fn law_written_comments_tell_cell_and_text(list: Seq<CellComment<Seq<char>>>)
    ensures
        ({
            let found = xml::marked(partxml::comment_elements(list));
            let texts = texts_named(found, "t"@);
            let places = attrs_named(found, "comment"@, "ref"@);
            &&& texts.len() == list.len()
            &&& places.len() == list.len()
            &&& forall|i: int|
                0 <= i < list.len() ==> texts[i] == (#[trigger] list[i]).text && places[i] == Some(
                    crate::coord::a1_text(list[i].key.row, list[i].key.col),
                )
        }),
{
    let none = Seq::<char>::empty();
    reveal(heard);
    reveal(seen);
    lemma_comments_read(list, none);
    let s = partxml::comment_elements(list);
    assert(s + none == s);
    assert(xml::marked(none) == Attrs::empty());
    assert(texts_named(xml::marked(none), "t"@) == Seq::<Seq<char>>::empty());
    assert(attrs_named(xml::marked(none), "comment"@, "ref"@) == Seq::<Option<Seq<char>>>::empty());
}

} // verus!
