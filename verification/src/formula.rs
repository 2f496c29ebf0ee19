//! References inside formula text: how they follow structure edits and sheet names.

use crate::coord;
use crate::coord::{Key, StructureEdit};
use crate::pattern;
use crate::text;
use vstd::prelude::*;
use vstd::string::*;

verus! {

/// A cell reference, with its sheet or without: sheet, `$`, column, `$`, row, and the
/// last four again for a reference without sheet.
pub const REF_PATTERN: &'static str = r#"(?i)(?P<sheet>'(?:[^']|'')+'|[A-Za-z_][A-Za-z0-9_ ]*)!(?P<col_abs>\$?)(?P<col>[A-Z]{1,3})(?P<row_abs>\$?)(?P<row>[0-9]+)|(?P<col_abs2>\$?)(?P<col2>[A-Z]{1,3})(?P<row_abs2>\$?)(?P<row2>[0-9]+)"#;

/// A range with its sheet: sheet, first cell, last cell.
pub const SHEET_RANGE_PATTERN: &'static str = r#"(?i)(?P<sheet>'(?:[^']|'')+'|[A-Za-z_][A-Za-z0-9_ ]*)!(?P<ref1>\$?[A-Z]{1,3}\$?[0-9]+):(?P<ref2>\$?[A-Z]{1,3}\$?[0-9]+)"#;

/// A range without sheet: first cell, last cell.
pub const RANGE_PATTERN: &'static str = r#"(?i)(?P<ref1>\$?[A-Z]{1,3}\$?[0-9]+):(?P<ref2>\$?[A-Z]{1,3}\$?[0-9]+)"#;

/// A cell reference and nothing else: `$`, column, `$`, row.
pub const TOKEN_PATTERN: &'static str = r#"(?i)^(?P<col_abs>\$?)(?P<col>[A-Z]{1,3})(?P<row_abs>\$?)(?P<row>[0-9]+)$"#;

// ----- Where in a formula a position stands -----

/// Whether position `offset` lies in a string literal, read from `i` on with `inside`
/// telling whether `i` does. A doubled quote inside a literal does not end it.
pub open spec fn literal_scan(s: Seq<char>, offset: int, i: int, inside: bool) -> bool
    decreases s.len() - i,
{
    if i < 0 || i >= offset || i >= s.len() {
        inside
    } else if s[i] != '"' {
        literal_scan(s, offset, i + 1, inside)
    } else if inside && i + 1 < s.len() && s[i + 1] == '"' {
        literal_scan(s, offset, i + 2, inside)
    } else {
        literal_scan(s, offset, i + 1, !inside)
    }
}

pub open spec fn in_literal(s: Seq<char>, offset: int) -> bool {
    literal_scan(s, offset, 0, false)
}

pub fn formula_offset_in_string_literal(s: &Vec<char>, offset: usize) -> (r: bool)
    ensures
        r == in_literal(s@, offset as int),
{
    let mut inside = false;
    let mut i: usize = 0;
    while i < offset && i < s.len()
        invariant
            i <= s.len(),
            in_literal(s@, offset as int) == literal_scan(s@, offset as int, i as int, inside),
        decreases s.len() - i,
    {
        if s[i] == '"' {
            if inside && i < s.len() - 1 && s[i + 1] == '"' {
                i = i + 2;
                continue;
            }
            inside = !inside;
        }
        i = i + 1;
    }
    inside
}

/// Whether the last square bracket before position `offset` opens one.
pub open spec fn in_bracket(s: Seq<char>, offset: int) -> bool {
    let before = text::slice(s, 0, offset);
    match (text::rfind(before, "["@), text::rfind(before, "]"@)) {
        (Some(open), Some(close)) => open > close,
        (Some(open), None) => true,
        _ => false,
    }
}

pub fn formula_offset_in_bracket_ref(s: &Vec<char>, offset: usize) -> (r: bool)
    ensures
        r == in_bracket(s@, offset as int),
{
    let before = text::piece(s, 0, offset);
    match (text::rfind_text(&before, "["), text::rfind_text(&before, "]")) {
        (Some(open), Some(close)) => open > close,
        (Some(_), None) => true,
        _ => false,
    }
}

pub open spec fn protected(s: Seq<char>, offset: int) -> bool {
    in_literal(s, offset) || in_bracket(s, offset)
}

fn is_protected(s: &Vec<char>, offset: usize) -> (r: bool)
    ensures
        r == protected(s@, offset as int),
{
    formula_offset_in_string_literal(s, offset) || formula_offset_in_bracket_ref(s, offset)
}

pub open spec fn char_at(s: Seq<char>, i: int) -> Option<char> {
    if 0 <= i < s.len() {
        Some(s[i])
    } else {
        None
    }
}

/// The character before position `at`.
pub fn char_before(s: &Vec<char>, at: usize) -> (r: Option<char>)
    ensures
        r == char_at(s@, at - 1),
{
    if 0 < at && at <= s.len() {
        Some(s[at - 1])
    } else {
        None
    }
}

/// The character `n` places behind position `at`.
pub fn char_behind(s: &Vec<char>, at: usize, n: usize) -> (r: Option<char>)
    ensures
        r == char_at(s@, at + n),
{
    assert(s@.len() == s.len());
    match at.checked_add(n) {
        Some(i) => if i < s.len() {
            Some(s[i])
        } else {
            None
        },
        None => None,
    }
}

// ----- Sheet names in formulas -----

/// A sheet name without the quotes around it, doubled quotes inside made single.
pub open spec fn unquoted(s: Seq<char>) -> Seq<char> {
    match text::without_prefix(s, "'"@) {
        Some(t) => match text::without_suffix(t, "'"@) {
            Some(u) => text::replaced(u, "''"@, "'"@),
            None => s,
        },
        None => s,
    }
}

pub fn unquote_sheet_name(value: &str) -> (r: String)
    ensures
        r@ == unquoted(value@),
{
    match text::strip_prefix(value, "'") {
        Some(t) => match text::strip_suffix(&t, "'") {
            Some(u) => text::replace(&u, "''", "'"),
            None => value.to_owned(),
        },
        None => value.to_owned(),
    }
}

pub open spec fn is_simple_name(s: Seq<char>) -> bool {
    forall|i: int| 0 <= i < s.len() ==> text::is_alnum(#[trigger] s[i]) || s[i] == '_'
}

/// Whether a sheet name needs no quotes.
pub fn simple_sheet_name(name: &str) -> (r: bool)
    ensures
        r == is_simple_name(name@),
{
    let c = text::chars_of(name);
    let mut i: usize = 0;
    while i < c.len()
        invariant
            i <= c.len(),
            forall|k: int| 0 <= k < i ==> text::is_alnum(#[trigger] c@[k]) || c@[k] == '_',
        decreases c.len() - i,
    {
        if !(text::alnum(c[i]) || c[i] == '_') {
            return false;
        }
        i = i + 1;
    }
    true
}

pub open spec fn quoted_prefix(name: Seq<char>) -> Seq<char> {
    "'"@ + text::replaced(name, "'"@, "''"@) + "'!"@
}

fn quote_prefix(name: &str) -> (r: String)
    ensures
        r@ == quoted_prefix(name@),
{
    let mut out = "'".to_owned();
    out.append(&text::replace(name, "'", "''"));
    out.append("'!");
    out
}

/// A formula after a sheet got a new name: the quoted old name gives way to the quoted
/// new one, and where the old name needs no quotes the bare one does too.
pub open spec fn sheet_renamed(
    formula: Seq<char>,
    old_name: Seq<char>,
    new_name: Seq<char>,
) -> Seq<char> {
    let quoted = text::replaced(formula, quoted_prefix(old_name), quoted_prefix(new_name));
    if is_simple_name(old_name) {
        pattern::substituted(
            r"\b"@ + pattern::escaped(old_name) + "!"@,
            quoted,
            if is_simple_name(new_name) {
                new_name + "!"@
            } else {
                quoted_prefix(new_name)
            },
        )
    } else {
        quoted
    }
}

pub fn rewrite_formula_sheet_ref(formula: &str, old_name: &str, new_name: &str) -> (r: String)
    ensures
        r@ == sheet_renamed(formula@, old_name@, new_name@),
{
    let quoted_new = quote_prefix(new_name);
    let out = text::replace(formula, &quote_prefix(old_name), &quoted_new);
    if !simple_sheet_name(old_name) {
        return out;
    }
    let mut re = r"\b".to_owned();
    re.append(&pattern::escape(old_name));
    re.append("!");
    let replacement = if simple_sheet_name(new_name) {
        new_name.to_owned().concat("!")
    } else {
        quoted_new
    };
    pattern::substitute(&re, &out, &replacement)
}

// ----- References and structure edits -----

/// A single reference after an edit of the sheet that it is on.
pub open spec fn token_after(
    token: Seq<char>,
    sheet: Seq<char>,
    e: StructureEdit<Seq<char>>,
) -> Option<Seq<char>> {
    match pattern::first_match(TOKEN_PATTERN@, token) {
        Some(g) => match (pattern::group(g, 2), pattern::group(g, 4)) {
            (Some(col_text), Some(row_text)) => match (
                coord::col_number(col_text),
                text::parsed_size(row_text),
            ) {
                (Some(col), Some(row)) => match coord::key_after(coord::key(sheet, row, col), e) {
                    Some(next) => Some(
                        pattern::group_text(g, 1) + coord::col_name(next.col as nat)
                            + pattern::group_text(g, 3) + text::decimal(next.row as nat),
                    ),
                    None => None,
                },
                _ => None,
            },
            _ => None,
        },
        None => None,
    }
}

pub fn rewrite_ref_token_for_sheet(token: &str, sheet_name: &str, edit: &StructureEdit) -> (r:
    Option<String>)
    requires
        edit.valid(),
    ensures
        r.deep_view() == token_after(token@, sheet_name@, edit.deep_view()),
{
    let g = match pattern::find_first(TOKEN_PATTERN, token) {
        Some(g) => g,
        None => return None,
    };
    match (pattern::group_of(&g, 2), pattern::group_of(&g, 4)) {
        (Some(col_text), Some(row_text)) => {
            match (coord::col_from_name(&col_text), text::parse_size(&row_text)) {
                (Some(col), Some(row)) => {
                    match coord::transform_key(&coord::key_of(sheet_name, row, col), edit) {
                        Some(next) => {
                            let mut out = pattern::group_text_of(&g, 1);
                            out.append(&coord::col_to_name(next.col));
                            out.append(&pattern::group_text_of(&g, 3));
                            out.append(&text::size_text(next.row));
                            Some(out)
                        },
                        None => None,
                    }
                },
                _ => None,
            }
        },
        _ => None,
    }
}

/// What stands for the two ends of a range after an edit.
pub open spec fn range_after(
    left: Option<Seq<char>>,
    right: Option<Seq<char>>,
    prefix: Seq<char>,
) -> Seq<char> {
    match (left, right) {
        (Some(l), Some(r)) => prefix + l + ":"@ + r,
        _ => "#REF!"@,
    }
}

fn range_of(left: Option<String>, right: Option<String>, prefix: String) -> (r: String)
    ensures
        r@ == range_after(left.deep_view(), right.deep_view(), prefix@),
{
    match (left, right) {
        (Some(l), Some(r)) => {
            let mut out = prefix;
            out.append(&l);
            out.append(":");
            out.append(&r);
            out
        },
        _ => "#REF!".to_owned(),
    }
}

/// What takes the place of a range with its sheet found at position `at`.
pub open spec fn sheet_range_after(
    formula: Seq<char>,
    at: int,
    g: Seq<Option<Seq<char>>>,
    e: StructureEdit<Seq<char>>,
) -> Seq<char> {
    let token = pattern::group_text(g, 1);
    let sheet = unquoted(token);
    if protected(formula, at) || sheet != e.sheet {
        pattern::group_text(g, 0)
    } else {
        range_after(
            token_after(pattern::group_text(g, 2), sheet, e),
            token_after(pattern::group_text(g, 3), sheet, e),
            token + "!"@,
        )
    }
}

fn rewrite_sheet_range(
    formula: &Vec<char>,
    at: usize,
    g: &Vec<Option<String>>,
    edit: &StructureEdit,
) -> (r: String)
    requires
        edit.valid(),
    ensures
        r@ == sheet_range_after(formula@, at as int, g.deep_view(), edit.deep_view()),
{
    let token = pattern::group_text_of(g, 1);
    let sheet = unquote_sheet_name(&token);
    if is_protected(formula, at) || sheet != edit.sheet {
        return pattern::group_text_of(g, 0);
    }
    let left = rewrite_ref_token_for_sheet(&pattern::group_text_of(g, 2), &sheet, edit);
    let right = rewrite_ref_token_for_sheet(&pattern::group_text_of(g, 3), &sheet, edit);
    range_of(left, right, token.concat("!"))
}

/// What takes the place of a range without sheet found at position `at`.
pub open spec fn bare_range_after(
    formula: Seq<char>,
    at: int,
    g: Seq<Option<Seq<char>>>,
    sheet: Seq<char>,
    e: StructureEdit<Seq<char>>,
) -> Seq<char> {
    if char_at(formula, at - 1) == Some('!') || protected(formula, at) {
        pattern::group_text(g, 0)
    } else {
        range_after(
            token_after(pattern::group_text(g, 1), sheet, e),
            token_after(pattern::group_text(g, 2), sheet, e),
            Seq::empty(),
        )
    }
}

fn rewrite_bare_range(
    formula: &Vec<char>,
    at: usize,
    g: &Vec<Option<String>>,
    sheet: &str,
    edit: &StructureEdit,
) -> (r: String)
    requires
        edit.valid(),
    ensures
        r@ == bare_range_after(formula@, at as int, g.deep_view(), sheet@, edit.deep_view()),
{
    if char_before(formula, at) == Some('!') || is_protected(formula, at) {
        return pattern::group_text_of(g, 0);
    }
    let left = rewrite_ref_token_for_sheet(&pattern::group_text_of(g, 1), sheet, edit);
    let right = rewrite_ref_token_for_sheet(&pattern::group_text_of(g, 2), sheet, edit);
    range_of(left, right, String::new())
}

pub open spec fn joins_word(c: Option<char>) -> bool {
    c matches Some(ch) && (text::is_alnum(ch) || ch == '_')
}

pub fn joins(c: Option<char>) -> (r: bool)
    ensures
        r == joins_word(c),
{
    match c {
        Some(ch) => text::alnum(ch) || ch == '_',
        None => false,
    }
}

pub open spec fn either(a: Option<Seq<char>>, b: Option<Seq<char>>) -> Option<Seq<char>> {
    match a {
        Some(t) => Some(t),
        None => b,
    }
}

pub fn either_of(a: Option<String>, b: Option<String>) -> (r: Option<String>)
    ensures
        r.deep_view() == either(a.deep_view(), b.deep_view()),
{
    match a {
        Some(t) => Some(t),
        None => b,
    }
}

pub open spec fn or_empty(a: Option<Seq<char>>) -> Seq<char> {
    match a {
        Some(t) => t,
        None => Seq::empty(),
    }
}

pub fn or_empty_of(a: Option<String>) -> (r: String)
    ensures
        r@ == or_empty(a.deep_view()),
{
    match a {
        Some(t) => t,
        None => String::new(),
    }
}

/// Whether the reference at `at`, `len` characters long, is no reference on its own:
/// it stands in a literal or a bracket, is an end of a range, or is part of a word.
pub open spec fn not_a_ref(formula: Seq<char>, at: int, len: int) -> bool {
    let previous = char_at(formula, at - 1);
    let next = char_at(formula, at + len);
    protected(formula, at) || previous == Some(':') || next == Some(':') || joins_word(previous)
        || previous == Some(']') || joins_word(next)
}

/// What takes the place of a cell reference found at position `at`; `None` where it
/// stays.
pub open spec fn ref_after(
    formula: Seq<char>,
    at: int,
    g: Seq<Option<Seq<char>>>,
    default_sheet: Seq<char>,
    e: StructureEdit<Seq<char>>,
) -> Option<Seq<char>> {
    let token = pattern::group(g, 1);
    let sheet = match token {
        Some(t) => unquoted(t),
        None => default_sheet,
    };
    let col_text = either(pattern::group(g, 3), pattern::group(g, 7));
    let row_text = either(pattern::group(g, 5), pattern::group(g, 9));
    if not_a_ref(formula, at, pattern::group_text(g, 0).len() as int) || text::contains(
        sheet,
        "["@,
    ) || text::contains(sheet, "]"@) || sheet != e.sheet || col_text is None || row_text is None {
        None
    } else {
        match (coord::col_number(col_text.unwrap()), text::parsed_size(row_text.unwrap())) {
            (Some(col), Some(row)) => match coord::key_after(coord::key(sheet, row, col), e) {
                Some(next) => Some(
                    (match token {
                        Some(t) => t + "!"@,
                        None => Seq::empty(),
                    }) + or_empty(either(pattern::group(g, 2), pattern::group(g, 6)))
                        + coord::col_name(next.col as nat) + or_empty(
                        either(pattern::group(g, 4), pattern::group(g, 8)),
                    ) + text::decimal(next.row as nat),
                ),
                None => Some("#REF!"@),
            },
            _ => None,
        }
    }
}

pub fn rewrite_formula_ref_capture(
    formula: &Vec<char>,
    at: usize,
    g: &Vec<Option<String>>,
    default_sheet: &str,
    edit: &StructureEdit,
) -> (r: Option<String>)
    requires
        edit.valid(),
    ensures
        r.deep_view() == ref_after(
            formula@,
            at as int,
            g.deep_view(),
            default_sheet@,
            edit.deep_view(),
        ),
{
    let whole = text::chars_of(&pattern::group_text_of(g, 0));
    let previous = char_before(formula, at);
    let next = char_behind(formula, at, whole.len());
    if is_protected(formula, at) || previous == Some(':') || next == Some(':') || joins(previous)
        || previous == Some(']') || joins(next) {
        return None;
    }
    let token = pattern::group_of(g, 1);
    let sheet = match &token {
        Some(t) => unquote_sheet_name(t),
        None => default_sheet.to_owned(),
    };
    if text::has(&sheet, "[") || text::has(&sheet, "]") || sheet != edit.sheet {
        return None;
    }
    let col_text = either_of(pattern::group_of(g, 3), pattern::group_of(g, 7));
    let row_text = either_of(pattern::group_of(g, 5), pattern::group_of(g, 9));
    let (col, row) = match (col_text, row_text) {
        (Some(c), Some(r)) => match (coord::col_from_name(&c), text::parse_size(&r)) {
            (Some(col), Some(row)) => (col, row),
            _ => return None,
        },
        _ => return None,
    };
    match coord::transform_key(&Key { sheet, row, col }, edit) {
        Some(next) => {
            let mut out = match token {
                Some(t) => t.concat("!"),
                None => String::new(),
            };
            out.append(&or_empty_of(either_of(pattern::group_of(g, 2), pattern::group_of(g, 6))));
            out.append(&coord::col_to_name(next.col));
            out.append(&or_empty_of(either_of(pattern::group_of(g, 4), pattern::group_of(g, 8))));
            out.append(&text::size_text(next.row));
            Some(out)
        },
        None => Some("#REF!".to_owned()),
    }
}

/// The three ways in which references are looked for.
#[derive(Clone, Copy, PartialEq, Eq, Structural)]
pub enum RefPass {
    SheetRanges,
    BareRanges,
    Refs,
}

/// What takes the place of a match of the pass.
pub open spec fn replacement(
    pass: RefPass,
    formula: Seq<char>,
    at: int,
    g: Seq<Option<Seq<char>>>,
    default_sheet: Seq<char>,
    e: StructureEdit<Seq<char>>,
) -> Seq<char> {
    match pass {
        RefPass::SheetRanges => sheet_range_after(formula, at, g, e),
        RefPass::BareRanges => bare_range_after(formula, at, g, default_sheet, e),
        RefPass::Refs => match ref_after(formula, at, g, default_sheet, e) {
            Some(t) => t,
            None => pattern::group_text(g, 0),
        },
    }
}

/// The formula up to the end of the last of `hits`, each match replaced.
pub open spec fn replaced_hits(
    pass: RefPass,
    formula: Seq<char>,
    hits: Seq<(Seq<char>, Seq<Option<Seq<char>>>)>,
    default_sheet: Seq<char>,
    e: StructureEdit<Seq<char>>,
) -> Seq<char>
    decreases hits.len(),
{
    if hits.len() == 0 {
        Seq::empty()
    } else {
        let (before, g) = hits.last();
        let at = (pattern::scanned_text(hits.drop_last()) + before).len() as int;
        replaced_hits(pass, formula, hits.drop_last(), default_sheet, e) + before + replacement(
            pass,
            formula,
            at,
            g,
            default_sheet,
            e,
        )
    }
}

pub open spec fn pass_pattern(pass: RefPass) -> Seq<char> {
    match pass {
        RefPass::SheetRanges => SHEET_RANGE_PATTERN@,
        RefPass::BareRanges => RANGE_PATTERN@,
        RefPass::Refs => REF_PATTERN@,
    }
}

/// The formula with each match of the pass replaced.
pub open spec fn passed(
    pass: RefPass,
    formula: Seq<char>,
    default_sheet: Seq<char>,
    e: StructureEdit<Seq<char>>,
) -> Seq<char> {
    let found = pattern::scan(pass_pattern(pass), formula);
    replaced_hits(pass, formula, found.0, default_sheet, e) + found.1
}

/// Replaces the matches of one pass, given what the pass found.
pub fn rewrite_found(
    pass: RefPass,
    formula: &str,
    hits: &Vec<(String, Vec<Option<String>>)>,
    rest: &str,
    default_sheet: &str,
    edit: &StructureEdit,
) -> (r: String)
    requires
        edit.valid(),
    ensures
        r@ == replaced_hits(
            pass,
            formula@,
            hits.deep_view(),
            default_sheet@,
            edit.deep_view(),
        ) + rest@,
{
    let f = text::chars_of(formula);
    let ghost all = hits.deep_view();
    let mut out = String::new();
    let mut seen: Vec<char> = Vec::new();
    let mut i: usize = 0;
    while i < hits.len()
        invariant
            i <= hits.len(),
            all == hits.deep_view(),
            edit.valid(),
            f@ == formula@,
            seen@ == pattern::scanned_text(all.take(i as int)),
            out@ == replaced_hits(
                pass,
                formula@,
                all.take(i as int),
                default_sheet@,
                edit.deep_view(),
            ),
        decreases hits.len() - i,
    {
        assert(all.take(i + 1).drop_last() == all.take(i as int));
        assert(all.take(i + 1).last() == hits@[i as int].deep_view());
        let g = &hits[i].1;
        let mut before = text::chars_of(&hits[i].0);
        seen.append(&mut before);
        out.append(&hits[i].0);
        let at = seen.len();
        let next = match pass {
            RefPass::SheetRanges => rewrite_sheet_range(&f, at, g, edit),
            RefPass::BareRanges => rewrite_bare_range(&f, at, g, default_sheet, edit),
            RefPass::Refs => match rewrite_formula_ref_capture(&f, at, g, default_sheet, edit) {
                Some(t) => t,
                None => pattern::group_text_of(g, 0),
            },
        };
        out.append(&next);
        let mut whole = text::chars_of(&pattern::group_text_of(g, 0));
        seen.append(&mut whole);
        i = i + 1;
    }
    assert(all.take(all.len() as int) == all);
    out.append(rest);
    out
}

fn rewrite_pass(pass: RefPass, formula: &str, default_sheet: &str, edit: &StructureEdit) -> (r:
    String)
    requires
        edit.valid(),
    ensures
        r@ == passed(pass, formula@, default_sheet@, edit.deep_view()),
        pass != RefPass::BareRanges && all_elsewhere(
            pass,
            pattern::scan(pass_pattern(pass), formula@).0,
            default_sheet@,
            edit.deep_view(),
        ) ==> r@ == formula@,
{
    let found = match pass {
        RefPass::SheetRanges => pattern::find_all(SHEET_RANGE_PATTERN, formula),
        RefPass::BareRanges => pattern::find_all(RANGE_PATTERN, formula),
        RefPass::Refs => pattern::find_all(REF_PATTERN, formula),
    };
    proof {
        let hits = pattern::scan(pass_pattern(pass), formula@).0;
        if pass != RefPass::BareRanges && all_elsewhere(
            pass,
            hits,
            default_sheet@,
            edit.deep_view(),
        ) {
            law_other_sheets_keep_references(
                pass,
                formula@,
                hits,
                default_sheet@,
                edit.deep_view(),
            );
        }
    }
    rewrite_found(pass, formula, &found.0, &found.1, default_sheet, edit)
}

pub fn rewrite_explicit_sheet_ranges(formula: &str, edit: &StructureEdit) -> (r: String)
    requires
        edit.valid(),
    ensures
        r@ == passed(RefPass::SheetRanges, formula@, ""@, edit.deep_view()),
        all_elsewhere(
            RefPass::SheetRanges,
            pattern::scan(SHEET_RANGE_PATTERN@, formula@).0,
            ""@,
            edit.deep_view(),
        ) ==> r@ == formula@,
{
    rewrite_pass(RefPass::SheetRanges, formula, "", edit)
}

pub open spec fn bare_ranges_passed(
    formula: Seq<char>,
    default_sheet: Seq<char>,
    e: StructureEdit<Seq<char>>,
) -> Seq<char> {
    if default_sheet != e.sheet {
        formula
    } else {
        passed(RefPass::BareRanges, formula, default_sheet, e)
    }
}

pub fn rewrite_unqualified_ranges(formula: &str, default_sheet: &str, edit: &StructureEdit) -> (r:
    String)
    requires
        edit.valid(),
    ensures
        r@ == bare_ranges_passed(formula@, default_sheet@, edit.deep_view()),
{
    if !text::same(default_sheet, &edit.sheet) {
        return formula.to_owned();
    }
    rewrite_pass(RefPass::BareRanges, formula, default_sheet, edit)
}

/// A formula of a cell on `default_sheet` after an edit: ranges with their sheet
/// first, then ranges without, then single references.
pub open spec fn formula_after(
    formula: Seq<char>,
    default_sheet: Seq<char>,
    e: StructureEdit<Seq<char>>,
) -> Seq<char> {
    passed(
        RefPass::Refs,
        bare_ranges_passed(passed(RefPass::SheetRanges, formula, ""@, e), default_sheet, e),
        default_sheet,
        e,
    )
}

pub fn rewrite_formula_structure_refs(
    formula: &str,
    default_sheet: &str,
    edit: &StructureEdit,
) -> (r: String)
    requires
        edit.valid(),
    ensures
        r@ == formula_after(formula@, default_sheet@, edit.deep_view()),
        refers_elsewhere(formula@, default_sheet@, edit.deep_view()) ==> r@ == formula@,
{
    proof {
        if refers_elsewhere(formula@, default_sheet@, edit.deep_view()) {
            let hits = pattern::scan(SHEET_RANGE_PATTERN@, formula@).0;
            assert forall|i: int| 0 <= i < hits.len() implies match_sheet(
                RefPass::SheetRanges,
                (#[trigger] hits[i]).1,
                ""@,
            ) != edit.deep_view().sheet by {
                assert(match_sheet(RefPass::SheetRanges, hits[i].1, default_sheet@)
                    != edit.deep_view().sheet);
            }
        }
    }
    let formula = rewrite_explicit_sheet_ranges(formula, edit);
    let formula = rewrite_unqualified_ranges(&formula, default_sheet, edit);
    rewrite_pass(RefPass::Refs, &formula, default_sheet, edit)
}

/// The sheet of a match of the pass.
pub open spec fn match_sheet(pass: RefPass, g: Seq<Option<Seq<char>>>, default_sheet: Seq<char>) -> Seq<
    char,
> {
    match (pass, pattern::group(g, 1)) {
        (RefPass::Refs, None) => default_sheet,
        _ => unquoted(pattern::group_text(g, 1)),
    }
}

/// Whether what the pass finds in a formula is all on other sheets than the edited one.
pub open spec fn all_elsewhere(
    pass: RefPass,
    hits: Seq<(Seq<char>, Seq<Option<Seq<char>>>)>,
    default_sheet: Seq<char>,
    e: StructureEdit<Seq<char>>,
) -> bool {
    forall|i: int|
        0 <= i < hits.len() ==> match_sheet(pass, (#[trigger] hits[i]).1, default_sheet) != e.sheet
}

/// Whether all references of a formula are on other sheets than the edited one.
pub open spec fn refers_elsewhere(
    formula: Seq<char>,
    default_sheet: Seq<char>,
    e: StructureEdit<Seq<char>>,
) -> bool {
    &&& default_sheet != e.sheet
    &&& all_elsewhere(
        RefPass::SheetRanges,
        pattern::scan(SHEET_RANGE_PATTERN@, formula).0,
        default_sheet,
        e,
    )
    &&& all_elsewhere(
        RefPass::Refs,
        pattern::scan(REF_PATTERN@, formula).0,
        default_sheet,
        e,
    )
}

/// Where no match of a pass over references with a sheet is on the edited sheet, the matches
/// put back what they matched.
pub proof fn law_other_sheets_keep_references(
    pass: RefPass,
    formula: Seq<char>,
    hits: Seq<(Seq<char>, Seq<Option<Seq<char>>>)>,
    default_sheet: Seq<char>,
    e: StructureEdit<Seq<char>>,
)
    requires
        pass != RefPass::BareRanges,
        all_elsewhere(pass, hits, default_sheet, e),
    ensures
        replaced_hits(pass, formula, hits, default_sheet, e) == pattern::scanned_text(hits),
    decreases hits.len(),
{
    if hits.len() > 0 {
        let rest = hits.drop_last();
        assert forall|i: int| 0 <= i < rest.len() implies match_sheet(
            pass,
            (#[trigger] rest[i]).1,
            default_sheet,
        ) != e.sheet by {
            assert(rest[i] == hits[i]);
        }
        law_other_sheets_keep_references(pass, formula, rest, default_sheet, e);
        assert(hits.last() == hits[hits.len() - 1]);
    }
}

// ----- What references name after an edit -----

/// Whether the pattern of a single reference takes a text apart into its column and row, each
/// pinned or not.
pub open spec fn taken_apart(token: Seq<char>) -> bool {
    match pattern::first_match(TOKEN_PATTERN@, token) {
        Some(g) => match (
            pattern::group(g, 1),
            pattern::group(g, 2),
            pattern::group(g, 3),
            pattern::group(g, 4),
        ) {
            (Some(a), Some(name), Some(b), Some(number)) => {
                &&& token == a + name + b + number
                &&& coord::is_pin(a) && coord::is_pin(b)
                &&& name.len() > 0 && coord::all_letters(name)
                &&& text::all_digits(number)
            },
            _ => false,
        },
        None => false,
    }
}

/// Whether a text names the given cell, and is pinned as another text is.
pub open spec fn names_cell(t: Seq<char>, k: Key<Seq<char>>, like: Seq<char>) -> bool {
    coord::a1(t) == Some((k.col, k.row)) && coord::pins(t) == coord::pins(like)
}

/// A name of a cell with its pins.
proof fn lemma_pinned_name(a: Seq<char>, b: Seq<char>, k: Key<Seq<char>>, like: Seq<char>)
    requires
        coord::is_pin(a) && coord::is_pin(b),
        k.col > 0,
        coord::pins(like) == (a.len() > 0, b.len() > 0),
    ensures
        names_cell(
            a + coord::col_name(k.col as nat) + b + text::decimal(k.row as nat),
            k,
            like,
        ),
{
    let name = coord::col_name(k.col as nat);
    let number = text::decimal(k.row as nat);
    coord::lemma_col_name_plain(k.col);
    coord::lemma_decimal_plain(k.row as nat);
    coord::law_col_name_reads_back(k.col);
    coord::law_decimal_reads_back(k.row as nat, usize::MAX as nat);
    coord::lemma_a1_of_parts(a, name, b, number);
    coord::lemma_pins_of_parts(a, name, b, number);
}

/// The column that a name stands for is one of the sheet.
proof fn lemma_carried_column(row: usize, col: usize, sheet: Seq<char>, e: StructureEdit<Seq<char>>)
    requires
        e.valid(),
        col > 0,
        e.kind == coord::StructureOpKind::Move ==> e.target > 0,
    ensures
        coord::key_after(coord::key(sheet, row, col), e) matches Some(k) ==> k.col > 0,
{
}

/// A reference to a cell that an edit leaves names the cell to which the edit carries it, and
/// is pinned as before; a reference to a cell that is gone is lost.
pub proof fn law_references_name_the_carried_cell(
    token: Seq<char>,
    sheet: Seq<char>,
    row: usize,
    col: usize,
    e: StructureEdit<Seq<char>>,
)
    requires
        e.valid(),
        e.kind == coord::StructureOpKind::Move ==> e.target > 0,
        taken_apart(token),
        coord::a1(token) == Some((col, row)),
        col > 0,
    ensures
        match coord::key_after(coord::key(sheet, row, col), e) {
            Some(k) => token_after(token, sheet, e) matches Some(t) && names_cell(t, k, token),
            None => token_after(token, sheet, e) is None,
        },
{
    let g = pattern::first_match(TOKEN_PATTERN@, token)->Some_0;
    let a = pattern::group(g, 1)->Some_0;
    let name = pattern::group(g, 2)->Some_0;
    let b = pattern::group(g, 3)->Some_0;
    let number = pattern::group(g, 4)->Some_0;
    coord::lemma_a1_of_parts(a, name, b, number);
    coord::lemma_pins_of_parts(a, name, b, number);
    lemma_carried_column(row, col, sheet, e);
    if let Some(k) = coord::key_after(coord::key(sheet, row, col), e) {
        lemma_pinned_name(a, b, k, token);
    }
}

/// Whether a text is a range of two ends that name the given cells.
pub open spec fn names_range(
    t: Seq<char>,
    prefix: Seq<char>,
    a: Key<Seq<char>>,
    b: Key<Seq<char>>,
    first: Seq<char>,
    last: Seq<char>,
) -> bool {
    exists|l: Seq<char>, r: Seq<char>|
        t == #[trigger] (prefix + l + ":"@ + r) && names_cell(l, a, first) && names_cell(
            r,
            b,
            last,
        )
}

/// Whether a range takes the place of another as an edit demands: its ends name the cells to
/// which the edit carries the ends, and the range is lost where one of them is.
pub open spec fn range_follows(
    t: Seq<char>,
    prefix: Seq<char>,
    sheet: Seq<char>,
    first: Seq<char>,
    last: Seq<char>,
    e: StructureEdit<Seq<char>>,
) -> bool {
    match (coord::a1(first), coord::a1(last)) {
        (Some((c1, r1)), Some((c2, r2))) => match (
            coord::key_after(coord::key(sheet, r1, c1), e),
            coord::key_after(coord::key(sheet, r2, c2), e),
        ) {
            (Some(a), Some(b)) => names_range(t, prefix, a, b, first, last),
            _ => t == "#REF!"@,
        },
        _ => false,
    }
}

/// Whether a text is a reference that the pattern of single references takes apart, to a cell
/// of the sheet.
pub open spec fn is_reference(token: Seq<char>) -> bool {
    taken_apart(token) && (coord::a1(token) matches Some((col, row)) && col > 0)
}

proof fn lemma_range_follows(
    prefix: Seq<char>,
    sheet: Seq<char>,
    first: Seq<char>,
    last: Seq<char>,
    e: StructureEdit<Seq<char>>,
)
    requires
        e.valid(),
        e.kind == coord::StructureOpKind::Move ==> e.target > 0,
        is_reference(first),
        is_reference(last),
    ensures
        range_follows(
            range_after(token_after(first, sheet, e), token_after(last, sheet, e), prefix),
            prefix,
            sheet,
            first,
            last,
            e,
        ),
{
    let (c1, r1) = coord::a1(first)->Some_0;
    let (c2, r2) = coord::a1(last)->Some_0;
    law_references_name_the_carried_cell(first, sheet, r1, c1, e);
    law_references_name_the_carried_cell(last, sheet, r2, c2, e);
    let a = coord::key_after(coord::key(sheet, r1, c1), e);
    let b = coord::key_after(coord::key(sheet, r2, c2), e);
    if a is Some && b is Some {
        let l = token_after(first, sheet, e)->Some_0;
        let r = token_after(last, sheet, e)->Some_0;
        assert(names_cell(l, a->Some_0, first) && names_cell(r, b->Some_0, last));
        assert(range_after(Some(l), Some(r), prefix) == prefix + l + ":"@ + r);
    }
}

/// A range on the edited sheet, written with its sheet and outside literals and brackets, gives
/// way to the range of the cells to which the edit carries its ends.
pub proof fn law_sheet_ranges_follow_their_cells(
    formula: Seq<char>,
    at: int,
    g: Seq<Option<Seq<char>>>,
    e: StructureEdit<Seq<char>>,
)
    requires
        e.valid(),
        e.kind == coord::StructureOpKind::Move ==> e.target > 0,
        !in_literal(formula, at) && !in_bracket(formula, at),
        unquoted(pattern::group_text(g, 1)) == e.sheet,
        is_reference(pattern::group_text(g, 2)),
        is_reference(pattern::group_text(g, 3)),
    ensures
        range_follows(
            sheet_range_after(formula, at, g, e),
            pattern::group_text(g, 1) + "!"@,
            e.sheet,
            pattern::group_text(g, 2),
            pattern::group_text(g, 3),
            e,
        ),
{
    lemma_range_follows(
        pattern::group_text(g, 1) + "!"@,
        e.sheet,
        pattern::group_text(g, 2),
        pattern::group_text(g, 3),
        e,
    );
}

/// A range without a sheet, outside literals and brackets and not behind the sign of a sheet,
/// gives way to the range of the cells to which the edit carries its ends.
pub proof fn law_bare_ranges_follow_their_cells(
    formula: Seq<char>,
    at: int,
    g: Seq<Option<Seq<char>>>,
    sheet: Seq<char>,
    e: StructureEdit<Seq<char>>,
)
    requires
        e.valid(),
        e.kind == coord::StructureOpKind::Move ==> e.target > 0,
        !in_literal(formula, at) && !in_bracket(formula, at),
        char_at(formula, at - 1) != Some('!'),
        is_reference(pattern::group_text(g, 1)),
        is_reference(pattern::group_text(g, 2)),
    ensures
        range_follows(
            bare_range_after(formula, at, g, sheet, e),
            Seq::empty(),
            sheet,
            pattern::group_text(g, 1),
            pattern::group_text(g, 2),
            e,
        ),
{
    lemma_range_follows(
        Seq::empty(),
        sheet,
        pattern::group_text(g, 1),
        pattern::group_text(g, 2),
        e,
    );
}

/// Whether the pattern of references takes a match apart: with a sheet, or without one.
pub open spec fn ref_taken_apart(
    g: Seq<Option<Seq<char>>>,
    a: Seq<char>,
    name: Seq<char>,
    b: Seq<char>,
    number: Seq<char>,
) -> bool {
    let first = if pattern::group(g, 1) is Some {
        2int
    } else {
        6int
    };
    let second = if pattern::group(g, 1) is Some {
        6int
    } else {
        2int
    };
    &&& pattern::group(g, first) == Some(a)
    &&& pattern::group(g, first + 1) == Some(name)
    &&& pattern::group(g, first + 2) == Some(b)
    &&& pattern::group(g, first + 3) == Some(number)
    &&& pattern::group(g, second) is None
    &&& pattern::group(g, second + 1) is None
    &&& pattern::group(g, second + 2) is None
    &&& pattern::group(g, second + 3) is None
    &&& coord::is_pin(a) && coord::is_pin(b)
    &&& name.len() > 0 && coord::all_letters(name)
    &&& text::all_digits(number)
}

/// The sheet that a single reference is on.
pub open spec fn ref_sheet(g: Seq<Option<Seq<char>>>, default_sheet: Seq<char>) -> Seq<char> {
    match pattern::group(g, 1) {
        Some(t) => unquoted(t),
        None => default_sheet,
    }
}

/// The sheet of a reference as it is written, with its sign; nothing where it has none.
pub open spec fn sheet_sign(g: Seq<Option<Seq<char>>>) -> Seq<char> {
    match pattern::group(g, 1) {
        Some(sheet) => sheet + "!"@,
        None => Seq::empty(),
    }
}

/// A single reference to a cell of the edited sheet, outside literals and brackets and neither
/// an end of a range nor a part of a word, gives way to a reference to the cell to which the
/// edit carries the cell, with the sheet as it was written, or is lost with the cell.
pub proof fn law_single_references_follow_their_cells(
    formula: Seq<char>,
    at: int,
    g: Seq<Option<Seq<char>>>,
    default_sheet: Seq<char>,
    e: StructureEdit<Seq<char>>,
    a: Seq<char>,
    name: Seq<char>,
    b: Seq<char>,
    number: Seq<char>,
    row: usize,
    col: usize,
)
    requires
        e.valid(),
        e.kind == coord::StructureOpKind::Move ==> e.target > 0,
        !not_a_ref(formula, at, pattern::group_text(g, 0).len() as int),
        ref_sheet(g, default_sheet) == e.sheet,
        !text::contains(e.sheet, "["@) && !text::contains(e.sheet, "]"@),
        ref_taken_apart(g, a, name, b, number),
        coord::a1(a + name + b + number) == Some((col, row)),
        col > 0,
    ensures
        match coord::key_after(coord::key(e.sheet, row, col), e) {
            Some(k) => exists|t: Seq<char>|
                ref_after(formula, at, g, default_sheet, e) == Some(
                    #[trigger] (sheet_sign(g) + t),
                ) && names_cell(t, k, a + name + b + number),
            None => ref_after(formula, at, g, default_sheet, e) == Some("#REF!"@),
        },
{
    coord::lemma_a1_of_parts(a, name, b, number);
    coord::lemma_pins_of_parts(a, name, b, number);
    lemma_carried_column(row, col, e.sheet, e);
    if let Some(k) = coord::key_after(coord::key(e.sheet, row, col), e) {
        lemma_pinned_name(a, b, k, a + name + b + number);
        let sheet = sheet_sign(g);
        let t = a + coord::col_name(k.col as nat) + b + text::decimal(k.row as nat);
        assert(sheet + a + coord::col_name(k.col as nat) + b + text::decimal(k.row as nat) == sheet
            + t);
    }
}

/// Where in a formula a match begins.
pub open spec fn match_place(hits: Seq<(Seq<char>, Seq<Option<Seq<char>>>)>, i: int) -> int {
    (pattern::scanned_text(hits.take(i)) + hits[i].0).len() as int
}

proof fn lemma_replacement_stands(
    pass: RefPass,
    formula: Seq<char>,
    hits: Seq<(Seq<char>, Seq<Option<Seq<char>>>)>,
    default_sheet: Seq<char>,
    e: StructureEdit<Seq<char>>,
    i: int,
)
    requires
        0 <= i < hits.len(),
    ensures
        exists|before: Seq<char>, behind: Seq<char>|
            replaced_hits(pass, formula, hits, default_sheet, e) == #[trigger] (before + replacement(
                pass,
                formula,
                match_place(hits, i),
                hits[i].1,
                default_sheet,
                e,
            ) + behind),
    decreases hits.len(),
{
    let rest = hits.drop_last();
    let t = replacement(pass, formula, match_place(hits, i), hits[i].1, default_sheet, e);
    let head = replaced_hits(pass, formula, rest, default_sheet, e);
    if i == hits.len() - 1 {
        assert(hits.take(i) == rest);
        let none = Seq::<char>::empty();
        assert(head + hits.last().0 + t == (head + hits.last().0) + t + none);
    } else {
        assert(rest.take(i) == hits.take(i));
        assert(rest[i] == hits[i]);
        lemma_replacement_stands(pass, formula, rest, default_sheet, e, i);
        let (before, behind) = choose|before: Seq<char>, behind: Seq<char>|
            head == #[trigger] (before + t + behind);
        let last = replacement(
            pass,
            formula,
            (pattern::scanned_text(rest) + hits.last().0).len() as int,
            hits.last().1,
            default_sheet,
            e,
        );
        let more = behind + hits.last().0 + last;
        assert(head + hits.last().0 + last == before + t + more);
    }
}

/// Whether what the passes over ranges without sheet and over single references find in a
/// formula is nothing that an edit moves: ends of ranges, parts of words, what stands in
/// literals and brackets, and references to other sheets.
pub open spec fn finds_only_ranges(
    formula: Seq<char>,
    default_sheet: Seq<char>,
    e: StructureEdit<Seq<char>>,
) -> bool {
    let ranges = pattern::scan(RANGE_PATTERN@, formula).0;
    let refs = pattern::scan(REF_PATTERN@, formula).0;
    &&& default_sheet == e.sheet ==> forall|i: int|
        0 <= i < ranges.len() ==> char_at(formula, #[trigger] match_place(ranges, i) - 1) == Some(
            '!',
        ) || protected(formula, match_place(ranges, i))
    &&& forall|i: int|
        0 <= i < refs.len() ==> not_a_ref(
            formula,
            #[trigger] match_place(refs, i),
            pattern::group_text(refs[i].1, 0).len() as int,
        ) || ref_sheet(refs[i].1, default_sheet) != e.sheet
}

proof fn lemma_nothing_replaced(
    pass: RefPass,
    formula: Seq<char>,
    hits: Seq<(Seq<char>, Seq<Option<Seq<char>>>)>,
    default_sheet: Seq<char>,
    e: StructureEdit<Seq<char>>,
)
    requires
        forall|i: int|
            0 <= i < hits.len() ==> replacement(
                pass,
                formula,
                #[trigger] match_place(hits, i),
                hits[i].1,
                default_sheet,
                e,
            ) == pattern::group_text(hits[i].1, 0),
    ensures
        replaced_hits(pass, formula, hits, default_sheet, e) == pattern::scanned_text(hits),
    decreases hits.len(),
{
    if hits.len() > 0 {
        let rest = hits.drop_last();
        let n = hits.len() - 1;
        assert forall|i: int| 0 <= i < rest.len() implies replacement(
            pass,
            formula,
            #[trigger] match_place(rest, i),
            rest[i].1,
            default_sheet,
            e,
        ) == pattern::group_text(rest[i].1, 0) by {
            assert(rest.take(i) == hits.take(i));
            assert(rest[i] == hits[i]);
            assert(match_place(rest, i) == match_place(hits, i));
        }
        lemma_nothing_replaced(pass, formula, rest, default_sheet, e);
        assert(hits.take(n) == rest);
        assert(match_place(hits, n) == (pattern::scanned_text(rest) + hits.last().0).len());
    }
}

/// Whether the pieces that the pattern of a pass finds in a formula make up the formula.
pub open spec fn scan_is_whole(pass: RefPass, formula: Seq<char>) -> bool {
    let found = pattern::scan(pass_pattern(pass), formula);
    pattern::scanned_text(found.0) + found.1 == formula
}

/// A range on the edited sheet stands in the rewritten formula as the range of the cells to
/// which the edit carries its ends, where the later passes over the formula find no range
/// and no reference of their own to move.
pub proof fn law_formulas_follow_their_ranges(
    formula: Seq<char>,
    default_sheet: Seq<char>,
    e: StructureEdit<Seq<char>>,
    i: int,
)
    requires
        e.valid(),
        e.kind == coord::StructureOpKind::Move ==> e.target > 0,
        ({
            let hits = pattern::scan(SHEET_RANGE_PATTERN@, formula).0;
            &&& 0 <= i < hits.len()
            &&& !in_literal(formula, match_place(hits, i))
            &&& !in_bracket(formula, match_place(hits, i))
            &&& unquoted(pattern::group_text(hits[i].1, 1)) == e.sheet
            &&& is_reference(pattern::group_text(hits[i].1, 2))
            &&& is_reference(pattern::group_text(hits[i].1, 3))
        }),
        ({
            let moved = passed(RefPass::SheetRanges, formula, ""@, e);
            &&& finds_only_ranges(moved, default_sheet, e)
            &&& scan_is_whole(RefPass::BareRanges, moved)
            &&& scan_is_whole(RefPass::Refs, moved)
        }),
    ensures
        ({
            let g = pattern::scan(SHEET_RANGE_PATTERN@, formula).0[i].1;
            exists|before: Seq<char>, t: Seq<char>, behind: Seq<char>|
                formula_after(formula, default_sheet, e) == #[trigger] (before + t + behind)
                    && range_follows(
                    t,
                    pattern::group_text(g, 1) + "!"@,
                    e.sheet,
                    pattern::group_text(g, 2),
                    pattern::group_text(g, 3),
                    e,
                )
        }),
{
    let found = pattern::scan(SHEET_RANGE_PATTERN@, formula);
    let hits = found.0;
    let g = hits[i].1;
    let at = match_place(hits, i);
    let moved = passed(RefPass::SheetRanges, formula, ""@, e);
    law_sheet_ranges_follow_their_cells(formula, at, g, e);
    lemma_replacement_stands(RefPass::SheetRanges, formula, hits, ""@, e, i);
    let t = sheet_range_after(formula, at, g, e);
    let (before, behind) = choose|before: Seq<char>, behind: Seq<char>|
        replaced_hits(RefPass::SheetRanges, formula, hits, ""@, e) == #[trigger] (before + t
            + behind);
    assert(moved == before + t + (behind + found.1));
    if default_sheet == e.sheet {
        let ranges = pattern::scan(RANGE_PATTERN@, moved).0;
        assert forall|j: int| 0 <= j < ranges.len() implies replacement(
            RefPass::BareRanges,
            moved,
            #[trigger] match_place(ranges, j),
            ranges[j].1,
            default_sheet,
            e,
        ) == pattern::group_text(ranges[j].1, 0) by {}
        lemma_nothing_replaced(RefPass::BareRanges, moved, ranges, default_sheet, e);
    }
    assert(bare_ranges_passed(moved, default_sheet, e) == moved);
    let refs = pattern::scan(REF_PATTERN@, moved).0;
    assert forall|j: int| 0 <= j < refs.len() implies replacement(
        RefPass::Refs,
        moved,
        #[trigger] match_place(refs, j),
        refs[j].1,
        default_sheet,
        e,
    ) == pattern::group_text(refs[j].1, 0) by {}
    lemma_nothing_replaced(RefPass::Refs, moved, refs, default_sheet, e);
    assert(formula_after(formula, default_sheet, e) == moved);
}

// ----- Ranges in A1 notation -----

pub open spec fn second_or_first(parts: Seq<Seq<char>>) -> Seq<char> {
    if parts.len() > 1 {
        parts[1]
    } else {
        parts[0]
    }
}

/// A range after an edit of its sheet: `None` where an end is deleted or no reference.
pub open spec fn range_ref_after(
    range: Seq<char>,
    default_sheet: Seq<char>,
    e: StructureEdit<Seq<char>>,
) -> Option<Seq<char>> {
    if text::contains(range, "!"@) {
        let next = formula_after(range, default_sheet, e);
        if text::contains(next, "#REF!"@) {
            None
        } else {
            Some(next)
        }
    } else {
        let parts = text::split(range, ':');
        match (coord::a1(parts[0]), coord::a1(second_or_first(parts))) {
            (Some((c1, r1)), Some((c2, r2))) => match (
                coord::key_after(coord::key(e.sheet, r1, c1), e),
                coord::key_after(coord::key(e.sheet, r2, c2), e),
            ) {
                (Some(a), Some(b)) => Some(coord::range_text(a.row, a.col, b.row, b.col)),
                _ => None,
            },
            _ => None,
        }
    }
}

pub fn transform_range_ref(range: &str, default_sheet: &str, edit: &StructureEdit) -> (r: Option<
    String,
>)
    requires
        edit.valid(),
    ensures
        r.deep_view() == range_ref_after(range@, default_sheet@, edit.deep_view()),
{
    if text::has(range, "!") {
        let next = rewrite_formula_structure_refs(range, default_sheet, edit);
        return if text::has(&next, "#REF!") {
            None
        } else {
            Some(next)
        };
    }
    let parts = text::split_at_char(range, ':');
    assert(parts.deep_view()[0] == parts@[0]@);
    let first = &parts[0];
    let second = if parts.len() > 1 {
        assert(parts.deep_view()[1] == parts@[1]@);
        &parts[1]
    } else {
        &parts[0]
    };
    match (coord::parse_a1(first), coord::parse_a1(second)) {
        (Some((c1, r1)), Some((c2, r2))) => {
            let a = coord::transform_key(&coord::key_of(&edit.sheet, r1, c1), edit);
            let b = coord::transform_key(&coord::key_of(&edit.sheet, r2, c2), edit);
            match (a, b) {
                (Some(a), Some(b)) => Some(coord::range_name(a.row, a.col, b.row, b.col)),
                _ => None,
            }
        },
        _ => None,
    }
}

/// A range of one cell as that cell.
pub open spec fn collapsed(range: Seq<char>) -> Seq<char> {
    let parts = text::split(range, ':');
    if parts.len() > 1 && parts[0] == parts[1] {
        parts[0]
    } else {
        range
    }
}

pub fn collapse_single_cell_range(range: &str) -> (r: String)
    ensures
        r@ == collapsed(range@),
{
    let parts = text::split_at_char(range, ':');
    if parts.len() > 1 {
        assert(parts.deep_view()[0] == parts@[0]@ && parts.deep_view()[1] == parts@[1]@);
        if parts[0] == parts[1] {
            return parts[0].clone();
        }
    }
    range.to_owned()
}

/// One reference of a list of references after an edit.
pub open spec fn sqref_token_after(
    token: Seq<char>,
    default_sheet: Seq<char>,
    e: StructureEdit<Seq<char>>,
) -> Option<Seq<char>> {
    match range_ref_after(token, default_sheet, e) {
        Some(t) => Some(
            if text::contains(token, ":"@) {
                t
            } else {
                collapsed(t)
            },
        ),
        None => None,
    }
}

/// The references of a list after an edit; `None` where one of them is lost.
pub open spec fn sqref_tokens_after(
    tokens: Seq<Seq<char>>,
    default_sheet: Seq<char>,
    e: StructureEdit<Seq<char>>,
) -> Option<Seq<Seq<char>>>
    decreases tokens.len(),
{
    if tokens.len() == 0 {
        Some(Seq::empty())
    } else {
        match (
            sqref_tokens_after(tokens.drop_last(), default_sheet, e),
            sqref_token_after(tokens.last(), default_sheet, e),
        ) {
            (Some(done), Some(t)) => Some(done.push(t)),
            _ => None,
        }
    }
}

pub open spec fn sqref_after(
    sqref: Seq<char>,
    default_sheet: Seq<char>,
    e: StructureEdit<Seq<char>>,
) -> Option<Seq<char>> {
    match sqref_tokens_after(text::words(sqref), default_sheet, e) {
        Some(refs) => if refs.len() == 0 {
            None
        } else {
            Some(text::joined(refs, " "@))
        },
        None => None,
    }
}

proof fn lemma_lost_token(
    tokens: Seq<Seq<char>>,
    i: int,
    default_sheet: Seq<char>,
    e: StructureEdit<Seq<char>>,
)
    requires
        0 <= i <= tokens.len(),
        sqref_tokens_after(tokens.take(i), default_sheet, e) is None,
    ensures
        sqref_tokens_after(tokens, default_sheet, e) is None,
    decreases tokens.len() - i,
{
    if i < tokens.len() {
        assert(tokens.take(i + 1).drop_last() == tokens.take(i));
        lemma_lost_token(tokens, i + 1, default_sheet, e);
    } else {
        assert(tokens.take(i) == tokens);
    }
}

pub fn transform_sqref_ref(sqref: &str, default_sheet: &str, edit: &StructureEdit) -> (r: Option<
    String,
>)
    requires
        edit.valid(),
    ensures
        r.deep_view() == sqref_after(sqref@, default_sheet@, edit.deep_view()),
{
    let tokens = text::split_words(sqref);
    let ghost all = tokens.deep_view();
    let ghost e = edit.deep_view();
    let mut refs: Vec<String> = Vec::new();
    let mut i: usize = 0;
    while i < tokens.len()
        invariant
            i <= tokens.len(),
            all == tokens.deep_view(),
            e == edit.deep_view(),
            edit.valid(),
            sqref_tokens_after(all.take(i as int), default_sheet@, e) == Some(refs.deep_view()),
        decreases tokens.len() - i,
    {
        assert(all.take(i + 1).drop_last() == all.take(i as int));
        let token = &tokens[i];
        match transform_range_ref(token, default_sheet, edit) {
            Some(t) => {
                let ghost done = refs.deep_view();
                let next = if text::has(token, ":") {
                    t
                } else {
                    collapse_single_cell_range(&t)
                };
                refs.push(next);
                assert(refs.deep_view() == done.push(next@));
            },
            None => {
                proof {
                    lemma_lost_token(all, i + 1, default_sheet@, e);
                }
                return None;
            },
        }
        i = i + 1;
    }
    assert(all.take(all.len() as int) == all);
    if refs.len() == 0 {
        None
    } else {
        Some(text::join(&refs, " "))
    }
}

} // verus!
