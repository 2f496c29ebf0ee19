//! Function calls in expression text: finding one, its arguments, and replacing it.

use crate::formula;
use crate::text;
use vstd::prelude::*;
use vstd::string::*;

verus! {

/// The position behind the parenthesis that closes the `depth` open ones; parentheses in
/// string literals do not count.
pub open spec fn paren_end(s: Seq<char>, i: int, depth: int, inside: bool) -> Option<int>
    decreases s.len() - i,
{
    if i < 0 || i >= s.len() {
        None
    } else if s[i] == '"' {
        paren_end(s, i + 1, depth, !inside)
    } else if !inside && s[i] == '(' {
        paren_end(s, i + 1, depth + 1, inside)
    } else if !inside && s[i] == ')' {
        if depth <= 1 {
            Some(i + 1)
        } else {
            paren_end(s, i + 1, depth - 1, inside)
        }
    } else {
        paren_end(s, i + 1, depth, inside)
    }
}

proof fn lemma_paren_end(s: Seq<char>, i: int, depth: int, inside: bool)
    ensures
        paren_end(s, i, depth, inside) matches Some(k) ==> i < k <= s.len(),
    decreases s.len() - i,
{
    if 0 <= i < s.len() {
        lemma_paren_end(s, i + 1, depth, !inside);
        lemma_paren_end(s, i + 1, depth + 1, inside);
        lemma_paren_end(s, i + 1, depth - 1, inside);
        lemma_paren_end(s, i + 1, depth, inside);
    }
}

/// Where a call begins, where its parenthesis opens, and where it ends.
pub type Span = (int, int, int);

/// The first call of the function `name`, in capitals, from `from` on: its name, letter
/// case aside, directly before a parenthesis. `None` too where the parenthesis of the first
/// such name is not closed.
pub open spec fn call_from(s: Seq<char>, name: Seq<char>, from: int) -> Option<Span>
    decreases s.len() + 1 - from,
{
    match text::find_from(text::upper(s), name, from) {
        None => None,
        Some(start) => {
            let open = start + name.len();
            proof {
                text::lemma_find_bounds(text::upper(s), name, from);
            }
            if name.len() == 0 {
                None
            } else if formula::char_at(s, open) != Some('(') {
                call_from(s, name, open)
            } else {
                match paren_end(s, open, 0, false) {
                    Some(end) => Some((start, open, end)),
                    None => None,
                }
            }
        },
    }
}

pub open spec fn call_in(s: Seq<char>, name: Seq<char>) -> Option<Span> {
    call_from(s, text::upper(name), 0)
}

/// A function call found in an expression.
pub struct FunctionCall {
    pub start: usize,
    pub open: usize,
    pub end: usize,
}

pub open spec fn span_of(r: Option<FunctionCall>) -> Option<Span> {
    match r {
        Some(c) => Some((c.start as int, c.open as int, c.end as int)),
        None => None,
    }
}

fn closing_paren(s: &Vec<char>, from: usize) -> (r: Option<usize>)
    requires
        from < s.len(),
        s@[from as int] == '(',
    ensures
        text::pos(r) == paren_end(s@, from as int, 0, false),
{
    let mut i: usize = from;
    let mut depth: usize = 0;
    let mut inside = false;
    while i < s.len()
        invariant
            from <= i <= s.len(),
            depth <= i - from,
            paren_end(s@, from as int, 0, false) == paren_end(
                s@,
                i as int,
                depth as int,
                inside,
            ),
        decreases s.len() - i,
    {
        if s[i] == '"' {
            inside = !inside;
        } else if !inside && s[i] == '(' {
            depth = depth + 1;
        } else if !inside && s[i] == ')' {
            if depth <= 1 {
                return Some(i + 1);
            }
            depth = depth - 1;
        }
        i = i + 1;
    }
    None
}

pub fn find_function_call(s: &Vec<char>, function_name: &str) -> (r: Option<FunctionCall>)
    ensures
        span_of(r) == call_in(s@, function_name@),
        r matches Some(c) ==> c.start <= c.open < c.end <= s.len(),
{
    let name = text::chars_of(&text::to_upper(function_name));
    let upper = text::chars_of(&text::to_upper(&text::text_of(s)));
    if name.len() == 0 {
        proof {
            text::lemma_find_bounds(upper@, name@, 0);
        }
        return None;
    }
    let mut from: usize = 0;
    while from <= s.len()
        invariant
            name.len() > 0,
            name@ == text::upper(function_name@),
            upper@ == text::upper(s@),
            call_in(s@, function_name@) == call_from(s@, name@, from as int),
        decreases s.len() + 1 - from,
    {
        let start = match text::find_chars(&upper, &name, from) {
            Some(start) => start,
            None => return None,
        };
        proof {
            text::lemma_find_bounds(upper@, name@, from as int);
            assert(start + name.len() <= s.len());
        }
        let open = start + name.len();
        if open < s.len() && s[open] == '(' {
            return match closing_paren(s, open) {
                Some(end) => {
                    proof {
                        lemma_paren_end(s@, open as int, 0, false);
                    }
                    Some(FunctionCall { start, open, end })
                },
                None => None,
            };
        }
        from = open;
    }
    None
}

/// A call that is found has the function's name directly before its parenthesis, and ends
/// within the text.
pub proof fn law_calls_have_the_name(s: Seq<char>, name: Seq<char>, from: int)
    requires
        from >= 0,
    ensures
        call_from(s, name, from) matches Some((start, open, end)) ==> {
            &&& from <= start < open < end <= s.len()
            &&& text::upper(s).subrange(start, open) == name
            &&& s[open] == '('
        },
    decreases s.len() + 1 - from,
{
    text::lemma_find_bounds(text::upper(s), name, from);
    if let Some(start) = text::find_from(text::upper(s), name, from) {
        let open = start + name.len();
        if name.len() > 0 {
            law_calls_have_the_name(s, name, open);
            lemma_paren_end(s, open, 0, false);
        }
    }
}

/// What stands between the parentheses of a call.
pub open spec fn call_args(s: Seq<char>, c: Span) -> Seq<char> {
    text::slice(s, c.1 + 1, c.2 - 1)
}

/// The expression with a call replaced by its value.
pub open spec fn call_replaced(s: Seq<char>, c: Span, value: Seq<char>) -> Seq<char> {
    text::slice(s, 0, c.0) + value + text::slice(s, c.2, s.len() as int)
}

pub fn replace_call(s: &Vec<char>, c: &FunctionCall, value: &str) -> (r: String)
    ensures
        r@ == call_replaced(s@, (c.start as int, c.open as int, c.end as int), value@),
{
    let mut out = text::piece(s, 0, c.start);
    out.append(value);
    out.append(&text::piece(s, c.end, s.len()));
    out
}

/// The trimmed parts of `s` from `start` on, cut at each `sep` that is in no parentheses
/// and in no literal.
pub open spec fn parts_from(
    s: Seq<char>,
    sep: char,
    i: int,
    start: int,
    depth: int,
    inside: bool,
) -> Seq<Seq<char>>
    decreases s.len() - i,
{
    if i < 0 || i >= s.len() {
        seq![text::trim(text::slice(s, start, s.len() as int))]
    } else if s[i] == '"' {
        parts_from(s, sep, i + 1, start, depth, !inside)
    } else if !inside && s[i] == '(' {
        parts_from(s, sep, i + 1, start, depth + 1, inside)
    } else if !inside && s[i] == ')' {
        parts_from(s, sep, i + 1, start, if depth > 0 { depth - 1 } else { 0 }, inside)
    } else if !inside && depth == 0 && s[i] == sep {
        seq![text::trim(text::slice(s, start, i))] + parts_from(
            s,
            sep,
            i + 1,
            i + 1,
            depth,
            inside,
        )
    } else {
        parts_from(s, sep, i + 1, start, depth, inside)
    }
}

pub open spec fn parts(s: Seq<char>, sep: char) -> Seq<Seq<char>> {
    parts_from(s, sep, 0, 0, 0, false)
}

fn split_parts(text: &str, sep: char) -> (r: Vec<String>)
    requires
        sep != '"' && sep != '(' && sep != ')',
    ensures
        r.deep_view() == parts(text@, sep),
        r.len() > 0,
{
    let s = text::chars_of(text);
    let mut out: Vec<String> = Vec::new();
    let mut start: usize = 0;
    let mut depth: usize = 0;
    let mut inside = false;
    let mut i: usize = 0;
    assert(out.deep_view() + parts(s@, sep) == parts(s@, sep));
    while i < s.len()
        invariant
            start <= i <= s.len(),
            depth <= i,
            sep != '"' && sep != '(' && sep != ')',
            s@ == text@,
            out.deep_view() + parts_from(
                s@,
                sep,
                i as int,
                start as int,
                depth as int,
                inside,
            ) == parts(s@, sep),
        decreases s.len() - i,
    {
        let ch = s[i];
        if ch == '"' {
            inside = !inside;
        } else if !inside && ch == '(' {
            depth = depth + 1;
        } else if !inside && ch == ')' {
            depth = if depth > 0 { depth - 1 } else { 0 };
        } else if !inside && depth == 0 && ch == sep {
            let ghost done = out.deep_view();
            let part = text::trimmed(&text::piece(&s, start, i));
            out.push(part);
            assert(out.deep_view() == done.push(part@));
            assert(done + (seq![part@] + parts_from(s@, sep, i + 1, i + 1, 0, false))
                == out.deep_view() + parts_from(s@, sep, i + 1, i + 1, 0, false));
            start = i + 1;
        }
        i = i + 1;
    }
    let ghost done = out.deep_view();
    let part = text::trimmed(&text::piece(&s, start, s.len()));
    out.push(part);
    assert(out.deep_view() == done.push(part@));
    assert(done + seq![part@] == done.push(part@));
    out
}

/// The arguments of a call.
pub fn split_args(args: &str) -> (r: Vec<String>)
    ensures
        r.deep_view() == parts(args@, ','),
        r.len() > 0,
{
    split_parts(args, ',')
}

/// The operands of `&`; the expression itself, untouched, where it has none.
pub open spec fn operands(s: Seq<char>) -> Seq<Seq<char>> {
    if parts(s, '&').len() <= 1 {
        seq![s]
    } else {
        parts(s, '&')
    }
}

pub fn split_concat_parts(expr: &str) -> (r: Vec<String>)
    ensures
        r.deep_view() == operands(expr@),
{
    let out = split_parts(expr, '&');
    assert(out.deep_view().len() == out.len());
    if out.len() <= 1 {
        let one: Vec<String> = vec![expr.to_owned()];
        assert(one.deep_view() == seq![expr@]);
        one
    } else {
        out
    }
}

/// A text without white space at its ends and without the quotes around it.
pub open spec fn unquoted(s: Seq<char>) -> Seq<char> {
    let t = text::trim(s);
    if t.len() >= 2 && t[0] == '"' && t.last() == '"' {
        t.subrange(1, t.len() - 1)
    } else {
        t
    }
}

pub fn strip_quotes(value: &str) -> (r: String)
    ensures
        r@ == unquoted(value@),
{
    let t = text::trimmed(value);
    let c = text::chars_of(&t);
    if c.len() >= 2 && c[0] == '"' && c[c.len() - 1] == '"' {
        text::piece(&c, 1, c.len() - 1)
    } else {
        t
    }
}

pub open spec fn quoted(s: Seq<char>) -> Seq<char> {
    "\""@ + s + "\""@
}

pub fn quote(s: &str) -> (r: String)
    ensures
        r@ == quoted(s@),
{
    let mut out = "\"".to_owned();
    out.append(s);
    out.append("\"");
    out
}

/// Whether a text begins and ends with a quote.
pub open spec fn is_quoted(s: Seq<char>) -> bool {
    s.len() > 0 && s[0] == '"' && s.last() == '"'
}

pub fn in_quotes(s: &str) -> (r: bool)
    ensures
        r == is_quoted(s@),
{
    let c = text::chars_of(s);
    c.len() > 0 && c[0] == '"' && c[c.len() - 1] == '"'
}

/// Quotes put around a text come off again.
pub proof fn law_quotes_come_off(s: Seq<char>)
    ensures
        unquoted(quoted(s)) == s,
{
    reveal_strlit("\"");
    let t = quoted(s);
    assert(t[0] == '"' && t.last() == '"');
    assert(text::trim_start(t) == t);
    assert(text::trim_end(t) == t);
    assert(t.subrange(1, t.len() - 1) == s);
}

} // verus!
