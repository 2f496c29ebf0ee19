//! What names mean on a sheet, and how calls and their arguments are told apart.

use crate::calls;
use crate::deps;
use crate::deps::NamesModel;
use crate::entries;
use crate::eval;
use crate::eval::Func;
use crate::formula;
use crate::text;
use vstd::prelude::*;
use vstd::string::*;

verus! {

// ----- Defined names -----

proof fn lemma_global(s: NamesModel, n: Seq<char>)
    ensures
        entries::get(deps::global_names(s), n) matches Some(t) ==> exists|i: int|
            0 <= i < s.len() && (#[trigger] s[i]).scope_sheet is None && text::lower(s[i].name) == n
                && s[i].target == t,
    decreases s.len(),
{
    if s.len() > 0 {
        let rest = s.drop_last();
        let d = s.last();
        lemma_global(rest, n);
        let done = deps::global_names(rest);
        entries::law_get_after_put(done, text::lower(d.name), d.target, n);
        if d.scope_sheet is None && text::lower(d.name) == n {
            assert(s[s.len() - 1] == d);
        } else if let Some(t) = entries::get(done, n) {
            let i = choose|i: int|
                0 <= i < rest.len() && (#[trigger] rest[i]).scope_sheet is None && text::lower(
                    rest[i].name,
                ) == n && rest[i].target == t;
            assert(s[i] == rest[i]);
        }
    }
}

proof fn lemma_last_global(s: NamesModel, i: int)
    requires
        0 <= i < s.len(),
        s[i].scope_sheet is None,
        forall|j: int|
            i < j < s.len() && (#[trigger] s[j]).scope_sheet is None ==> text::lower(s[j].name)
                != text::lower(s[i].name),
    ensures
        entries::get(deps::global_names(s), text::lower(s[i].name)) == Some(s[i].target),
    decreases s.len(),
{
    let rest = s.drop_last();
    let d = s.last();
    let n = text::lower(s[i].name);
    entries::law_get_after_put(deps::global_names(rest), text::lower(d.name), d.target, n);
    if i < s.len() - 1 {
        assert(rest[i] == s[i]);
        assert forall|j: int|
            i < j < rest.len() && (#[trigger] rest[j]).scope_sheet is None implies text::lower(
            rest[j].name,
        ) != text::lower(rest[i].name) by {
            assert(s[j] == rest[j]);
        }
        lemma_last_global(rest, i);
        assert(s[s.len() - 1] == d);
    }
}

proof fn lemma_over(
    base: Seq<(Seq<char>, Seq<char>)>,
    s: NamesModel,
    sheet: Seq<char>,
    n: Seq<char>,
)
    ensures
        entries::get(deps::names_over(base, s, sheet), n) == entries::get(base, n) || exists|i: int|
            0 <= i < s.len() && (#[trigger] s[i]).scope_sheet == Some(sheet) && text::lower(
                s[i].name,
            ) == n && entries::get(deps::names_over(base, s, sheet), n) == Some(s[i].target),
        (forall|i: int|
            0 <= i < s.len() ==> !((#[trigger] s[i]).scope_sheet == Some(sheet) && text::lower(
                s[i].name,
            ) == n)) ==> entries::get(deps::names_over(base, s, sheet), n) == entries::get(base, n),
    decreases s.len(),
{
    if s.len() > 0 {
        let rest = s.drop_last();
        let d = s.last();
        let done = deps::names_over(base, rest, sheet);
        lemma_over(base, rest, sheet, n);
        entries::law_get_after_put(done, text::lower(d.name), d.target, n);
        assert(s[s.len() - 1] == d);
        assert forall|i: int| 0 <= i < rest.len() implies #[trigger] rest[i] == s[i] by {}
        if !(d.scope_sheet == Some(sheet) && text::lower(d.name) == n) {
            if entries::get(done, n) != entries::get(base, n) {
                let i = choose|i: int|
                    0 <= i < rest.len() && (#[trigger] rest[i]).scope_sheet == Some(sheet)
                        && text::lower(rest[i].name) == n && entries::get(done, n) == Some(
                        rest[i].target,
                    );
                assert(s[i] == rest[i]);
            }
        }
    }
}

proof fn lemma_last_over(
    base: Seq<(Seq<char>, Seq<char>)>,
    s: NamesModel,
    sheet: Seq<char>,
    i: int,
)
    requires
        0 <= i < s.len(),
        s[i].scope_sheet == Some(sheet),
        forall|j: int|
            i < j < s.len() && (#[trigger] s[j]).scope_sheet == Some(sheet) ==> text::lower(
                s[j].name,
            ) != text::lower(s[i].name),
    ensures
        entries::get(deps::names_over(base, s, sheet), text::lower(s[i].name)) == Some(s[i].target),
    decreases s.len(),
{
    let rest = s.drop_last();
    let d = s.last();
    let n = text::lower(s[i].name);
    entries::law_get_after_put(
        deps::names_over(base, rest, sheet),
        text::lower(d.name),
        d.target,
        n,
    );
    if i < s.len() - 1 {
        assert(rest[i] == s[i]);
        assert forall|j: int|
            i < j < rest.len() && (#[trigger] rest[j]).scope_sheet == Some(sheet) implies text::lower(
            rest[j].name,
        ) != text::lower(rest[i].name) by {
            assert(s[j] == rest[j]);
        }
        lemma_last_over(base, rest, sheet, i);
        assert(s[s.len() - 1] == d);
    }
}

/// On a sheet a name means what the sheet's own name of that spelling stands for, the last one
/// where there are several; only where the sheet has none, it means the name for all sheets.
pub proof fn law_names_of_the_sheet_go_first(s: NamesModel, sheet: Seq<char>, i: int)
    requires
        0 <= i < s.len(),
    ensures
        s[i].scope_sheet == Some(sheet) && (forall|j: int|
            i < j < s.len() && (#[trigger] s[j]).scope_sheet == Some(sheet) ==> text::lower(
                s[j].name,
            ) != text::lower(s[i].name)) ==> entries::get(
            deps::names_on(s, sheet),
            text::lower(s[i].name),
        ) == Some(s[i].target),
        s[i].scope_sheet is None && (forall|j: int|
            i < j < s.len() && (#[trigger] s[j]).scope_sheet is None ==> text::lower(s[j].name)
                != text::lower(s[i].name)) && (forall|j: int|
            0 <= j < s.len() ==> !((#[trigger] s[j]).scope_sheet == Some(sheet) && text::lower(
                s[j].name,
            ) == text::lower(s[i].name))) ==> entries::get(
            deps::names_on(s, sheet),
            text::lower(s[i].name),
        ) == Some(s[i].target),
{
    let base = deps::global_names(s);
    if s[i].scope_sheet == Some(sheet) && (forall|j: int|
        i < j < s.len() && (#[trigger] s[j]).scope_sheet == Some(sheet) ==> text::lower(s[j].name)
            != text::lower(s[i].name)) {
        lemma_last_over(base, s, sheet, i);
    }
    if s[i].scope_sheet is None && (forall|j: int|
        i < j < s.len() && (#[trigger] s[j]).scope_sheet is None ==> text::lower(s[j].name)
            != text::lower(s[i].name)) {
        lemma_last_global(s, i);
        lemma_over(base, s, sheet, text::lower(s[i].name));
    }
}

/// What a name means on a sheet is what a name of that spelling stands for, of the sheet or for
/// all sheets: the names of other sheets mean nothing there.
pub proof fn law_names_of_other_sheets_mean_nothing(s: NamesModel, sheet: Seq<char>, n: Seq<char>)
    ensures
        entries::get(deps::names_on(s, sheet), n) matches Some(t) ==> exists|i: int|
            0 <= i < s.len() && ((#[trigger] s[i]).scope_sheet is None || s[i].scope_sheet == Some(
                sheet,
            )) && text::lower(s[i].name) == n && s[i].target == t,
{
    let base = deps::global_names(s);
    lemma_over(base, s, sheet, n);
    lemma_global(s, n);
    if let Some(t) = entries::get(deps::names_on(s, sheet), n) {
        if entries::get(deps::names_on(s, sheet), n) == entries::get(base, n) {
            let i = choose|i: int|
                0 <= i < s.len() && (#[trigger] s[i]).scope_sheet is None && text::lower(s[i].name)
                    == n && s[i].target == t;
            assert(s[i].target == t);
        } else {
            let i = choose|i: int|
                0 <= i < s.len() && (#[trigger] s[i]).scope_sheet == Some(sheet) && text::lower(
                    s[i].name,
                ) == n && entries::get(deps::names_over(base, s, sheet), n) == Some(s[i].target);
            assert(s[i].target == t);
        }
    }
}

// ----- Arguments -----

/// Whether a text has no quotes and no parentheses.
pub open spec fn flat(s: Seq<char>) -> bool {
    forall|i: int|
        0 <= i < s.len() ==> (#[trigger] s[i]) != '"' && s[i] != '(' && s[i] != ')'
}

proof fn lemma_parts_shifted(
    s: Seq<char>,
    t: Seq<char>,
    sep: char,
    k: int,
    i: int,
    start: int,
    depth: int,
    inside: bool,
)
    requires
        0 <= k,
        0 <= start <= i <= t.len(),
        s.len() == k + t.len(),
        s.skip(k) == t,
    ensures
        calls::parts_from(s, sep, k + i, k + start, depth, inside) == calls::parts_from(
            t,
            sep,
            i,
            start,
            depth,
            inside,
        ),
    decreases t.len() - i,
{
    assert(text::slice(s, k + start, s.len() as int) == text::slice(t, start, t.len() as int));
    if i < t.len() {
        assert(s[k + i] == t[i]);
        assert(text::slice(s, k + start, k + i) == text::slice(t, start, i));
        lemma_parts_shifted(s, t, sep, k, i + 1, start, depth, !inside);
        lemma_parts_shifted(s, t, sep, k, i + 1, start, depth + 1, inside);
        lemma_parts_shifted(
            s,
            t,
            sep,
            k,
            i + 1,
            start,
            if depth > 0 {
                depth - 1
            } else {
                0
            },
            inside,
        );
        lemma_parts_shifted(s, t, sep, k, i + 1, i + 1, depth, inside);
        lemma_parts_shifted(s, t, sep, k, i + 1, start, depth, inside);
    }
}

proof fn lemma_walked(s: Seq<char>, sep: char, i: int, until: int, start: int)
    requires
        0 <= i <= until <= s.len(),
        forall|j: int|
            i <= j < until ==> (#[trigger] s[j]) != '"' && s[j] != '(' && s[j] != ')' && s[j]
                != sep,
    ensures
        calls::parts_from(s, sep, i, start, 0, false) == calls::parts_from(
            s,
            sep,
            until,
            start,
            0,
            false,
        ),
    decreases until - i,
{
    if i < until {
        assert(s[i] != sep);
        lemma_walked(s, sep, i + 1, until, start);
    }
}

proof fn lemma_walked_inside(s: Seq<char>, sep: char, i: int, until: int, start: int)
    requires
        0 <= i <= until <= s.len(),
        forall|j: int| i <= j < until ==> (#[trigger] s[j]) != '"',
    ensures
        calls::parts_from(s, sep, i, start, 0, true) == calls::parts_from(
            s,
            sep,
            until,
            start,
            0,
            true,
        ),
    decreases until - i,
{
    if i < until {
        assert(s[i] != '"');
        lemma_walked_inside(s, sep, i + 1, until, start);
    }
}

proof fn lemma_walked_deep(s: Seq<char>, sep: char, i: int, until: int, start: int)
    requires
        0 <= i <= until <= s.len(),
        forall|j: int|
            i <= j < until ==> (#[trigger] s[j]) != '"' && s[j] != '(' && s[j] != ')',
    ensures
        calls::parts_from(s, sep, i, start, 1, false) == calls::parts_from(
            s,
            sep,
            until,
            start,
            1,
            false,
        ),
    decreases until - i,
{
    if i < until {
        assert(s[i] != '(');
        lemma_walked_deep(s, sep, i + 1, until, start);
    }
}

/// Arguments are told apart at the commas between them, without the space around them; commas
/// in parentheses and in quotes tell nothing apart.
pub proof fn law_arguments_are_told_apart(a: Seq<char>, b: Seq<char>, sep: char)
    requires
        sep != '"' && sep != '(' && sep != ')',
    ensures
        flat(a) && !a.contains(sep) ==> calls::parts(a + seq![sep] + b, sep) == seq![text::trim(a)]
            + calls::parts(b, sep),
        flat(a) && !a.contains(sep) ==> calls::parts(a, sep) == seq![text::trim(a)],
        flat(a) ==> calls::parts(seq!['('] + a + seq![')'], sep) == seq![
            text::trim(seq!['('] + a + seq![')']),
        ],
        !a.contains('"') ==> calls::parts(seq!['"'] + a + seq!['"'], sep) == seq![
            text::trim(seq!['"'] + a + seq!['"']),
        ],
{
    let n = a.len() as int;
    if flat(a) && !a.contains(sep) {
        let s = a + seq![sep] + b;
        assert forall|j: int| 0 <= j < n implies (#[trigger] s[j]) != '"' && s[j] != '(' && s[j]
            != ')' && s[j] != sep by {
            assert(s[j] == a[j]);
            assert(a.contains(a[j]));
        }
        lemma_walked(s, sep, 0, n, 0);
        assert(s[n] == sep);
        assert(text::slice(s, 0, n) == a);
        assert(s.skip(n + 1) == b);
        lemma_parts_shifted(s, b, sep, n + 1, 0, 0, 0, false);
        assert forall|j: int| 0 <= j < n implies (#[trigger] a[j]) != '"' && a[j] != '(' && a[j]
            != ')' && a[j] != sep by {
            assert(a.contains(a[j]));
        }
        lemma_walked(a, sep, 0, n, 0);
        assert(text::slice(a, 0, n) == a);
    }
    if flat(a) {
        let s = seq!['('] + a + seq![')'];
        assert forall|j: int| 1 <= j < n + 1 implies (#[trigger] s[j]) != '"' && s[j] != '('
            && s[j] != ')' by {
            assert(s[j] == a[j - 1]);
        }
        assert(s[0] == '(' && s[n + 1] == ')');
        lemma_walked_deep(s, sep, 1, n + 1, 0);
        assert(text::slice(s, 0, s.len() as int) == s);
        assert(calls::parts_from(s, sep, n + 1, 0, 1, false) == calls::parts_from(
            s,
            sep,
            n + 2,
            0,
            0,
            false,
        ));
    }
    if !a.contains('"') {
        let s = seq!['"'] + a + seq!['"'];
        assert forall|j: int| 1 <= j < n + 1 implies (#[trigger] s[j]) != '"' by {
            assert(s[j] == a[j - 1]);
            assert(a.contains(a[j - 1]));
        }
        assert(s[0] == '"' && s[n + 1] == '"');
        lemma_walked_inside(s, sep, 1, n + 1, 0);
        assert(text::slice(s, 0, s.len() as int) == s);
        assert(calls::parts_from(s, sep, n + 1, 0, 0, true) == calls::parts_from(
            s,
            sep,
            n + 2,
            0,
            0,
            false,
        ));
    }
}

// ----- Calls -----

proof fn lemma_closed_at(s: Seq<char>, i: int, until: int)
    requires
        0 <= i <= until < s.len(),
        forall|j: int|
            i <= j < until ==> (#[trigger] s[j]) != '"' && s[j] != '(' && s[j] != ')',
        s[until] == ')',
    ensures
        calls::paren_end(s, i, 1, false) == Some(until + 1),
    decreases until - i,
{
    if i < until {
        assert(s[i] != '(');
        lemma_closed_at(s, i + 1, until);
    }
}

/// A function's name, in either letter case, with its arguments in parentheses right behind it
/// is a call of the function with these arguments, and its value takes the place of the whole.
pub proof fn law_calls_are_taken_whole(
    wanted: Seq<char>,
    name: Seq<char>,
    args: Seq<char>,
    rest: Seq<char>,
    value: Seq<char>,
)
    requires
        name.len() > 0,
        text::upper(name) == text::upper(wanted),
        flat(args),
    ensures
        ({
            let s = name + seq!['('] + args + seq![')'] + rest;
            calls::call_in(s, wanted) matches Some(call) && calls::call_args(s, call)
                == args && calls::call_replaced(s, call, value) == value + rest
        }),
{
    let s = name + seq!['('] + args + seq![')'] + rest;
    let n = name.len() as int;
    let up = text::upper(name);
    assert(up.len() == name.len());
    assert(text::upper(s).subrange(0, n) == up);
    assert(text::occurs_at(text::upper(s), up, 0));
    assert(s[n] == '(');
    let end = n + 1 + args.len();
    assert(s[end] == ')');
    assert forall|j: int| n + 1 <= j < end implies (#[trigger] s[j]) != '"' && s[j] != '(' && s[j]
        != ')' by {
        assert(s[j] == args[j - n - 1]);
    }
    lemma_closed_at(s, n + 1, end);
    assert(calls::paren_end(s, n, 0, false) == Some(end + 1));
    assert(formula::char_at(s, n) == Some('('));
    assert(text::find_from(text::upper(s), up, 0) == Some(0int));
    assert(calls::call_from(s, up, 0) == Some((0int, n, end + 1)));
    assert(calls::call_in(s, wanted) == Some((0int, n, end + 1)));
    assert(s.subrange(n + 1, end) == args);
    assert(s.subrange(end + 1, s.len() as int) == rest);
    assert(s.subrange(0, 0) == Seq::<char>::empty());
    assert(calls::call_replaced(s, (0, n, end + 1), value) =~= value + rest);
}

/// Functions go by their names.
pub proof fn law_functions_go_by_their_names()
    ensures
        eval::func_name(Func::If) == "IF"@ && eval::func_name(Func::Iferror) == "IFERROR"@,
        eval::func_name(Func::And) == "AND"@ && eval::func_name(Func::Or) == "OR"@
            && eval::func_name(Func::Not) == "NOT"@,
        eval::func_name(Func::Sum) == "SUM"@ && eval::func_name(Func::Average) == "AVERAGE"@,
        eval::func_name(Func::Max) == "MAX"@ && eval::func_name(Func::Min) == "MIN"@,
        eval::func_name(Func::Count) == "COUNT"@ && eval::func_name(Func::Counta) == "COUNTA"@
            && eval::func_name(Func::Countblank) == "COUNTBLANK"@,
        eval::func_name(Func::Sumif) == "SUMIF"@ && eval::func_name(Func::Sumifs) == "SUMIFS"@,
        eval::func_name(Func::Countif) == "COUNTIF"@ && eval::func_name(Func::Countifs)
            == "COUNTIFS"@,
        eval::func_name(Func::Vlookup) == "VLOOKUP"@ && eval::func_name(Func::Index) == "INDEX"@
            && eval::func_name(Func::Match) == "MATCH"@,
        eval::func_name(Func::Len) == "LEN"@ && eval::func_name(Func::Trim) == "TRIM"@,
        eval::func_name(Func::Left) == "LEFT"@ && eval::func_name(Func::Right) == "RIGHT"@
            && eval::func_name(Func::Mid) == "MID"@,
        eval::func_name(Func::Value) == "VALUE"@ && eval::func_name(Func::Text) == "TEXT"@,
        eval::func_name(Func::Concat) == "CONCAT"@ && eval::func_name(Func::Textjoin)
            == "TEXTJOIN"@,
        eval::func_name(Func::Round) == "ROUND"@,
{
}

} // verus!
