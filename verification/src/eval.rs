//! Evaluating formulas. Text, ranges, lookups and decisions are worked out here; arithmetic
//! on numbers is asked for and comes back as answers, so an evaluation either settles or
//! names the first piece of arithmetic that it still needs.

use crate::calls;
use crate::coord;
use crate::coord::Key;
use crate::deps;
use crate::deps::CellsModel;
use crate::entries;
use crate::entries::Alike;
use crate::numbers;
use crate::pattern;
use crate::ranges;
use crate::structured;
use crate::text;
use vstd::prelude::*;
use vstd::string::*;

verus! {

// ----- Arithmetic that is asked for -----

#[derive(Clone, Copy, PartialEq, Eq, Structural)]
pub enum Arith {
    /// The value of an expression.
    Evaluate,
    /// A number in its shortest form, at most ten decimals.
    Format,
    /// The sum of texts, those that are no numbers counting as nothing.
    Total,
    /// The mean of numbers, zero of none.
    Average,
    /// The largest number, zero of none.
    Max,
    /// The smallest number, zero of none.
    Min,
    /// Whether two numbers compare as an operator says: left, operator, right.
    Compare,
    /// Whether two numbers have a difference that is a number.
    Comparable,
    /// A number cut to a count.
    Count,
    /// Whether a number is other than zero.
    NonZero,
    /// A number rounded to some decimals, in its shortest form.
    Round,
    /// A number with fixed decimals.
    Fixed,
    /// A number in percent with fixed decimals.
    Percent,
    /// A hundred times a number, in its shortest form.
    Hundredfold,
    /// A number rounded down to a count, zero where it is less.
    Days,
}

/// A piece of arithmetic with what it is applied to.
#[verifier::ext_equal]
pub struct Ask<A = Vec<String>> {
    pub op: Arith,
    pub args: A,
}

pub type AskModel = Ask<Seq<Seq<char>>>;

impl DeepView for Ask<Vec<String>> {
    type V = Ask<Seq<Seq<char>>>;

    open spec fn deep_view(&self) -> AskModel {
        Ask { op: self.op, args: self.args.deep_view() }
    }
}

impl Alike for Ask<Vec<String>> {
    fn alike(&self, other: &Self) -> (r: bool) {
        if self.op != other.op || self.args.len() != other.args.len() {
            assert(self.args.deep_view().len() == self.args.len());
            assert(other.args.deep_view().len() == other.args.len());
            return false;
        }
        let mut i: usize = 0;
        while i < self.args.len()
            invariant
                i <= self.args.len(),
                self.args.len() == other.args.len(),
                forall|k: int|
                    0 <= k < i ==> #[trigger] self.args.deep_view()[k]
                        == other.args.deep_view()[k],
            decreases self.args.len() - i,
        {
            if self.args[i] != other.args[i] {
                assert(self.args.deep_view()[i as int] != other.args.deep_view()[i as int]);
                return false;
            }
            i = i + 1;
        }
        assert(self.args.deep_view() == other.args.deep_view());
        true
    }
}

/// What came back for a piece of arithmetic.
#[verifier::ext_equal]
pub enum Reply<S = String> {
    Number(S),
    Flag(bool),
    Count(usize),
    Failed(S),
}

impl DeepView for Reply<String> {
    type V = Reply<Seq<char>>;

    open spec fn deep_view(&self) -> Reply<Seq<char>> {
        match self {
            Reply::Number(t) => Reply::Number(t@),
            Reply::Flag(b) => Reply::Flag(*b),
            Reply::Count(n) => Reply::Count(*n),
            Reply::Failed(t) => Reply::Failed(t@),
        }
    }
}

/// How far an evaluation comes: to a value, to an error, to arithmetic that it needs, or to
/// the end of the steps that it was allowed.
#[verifier::ext_equal]
pub enum Outcome<T, S = String, A = Vec<String>> {
    Value(T),
    Fail(S),
    Need(Ask<A>),
    Exhausted,
}

pub type Res<V> = Outcome<V, Seq<char>, Seq<Seq<char>>>;

impl<T: DeepView> DeepView for Outcome<T, String, Vec<String>> {
    type V = Outcome<T::V, Seq<char>, Seq<Seq<char>>>;

    open spec fn deep_view(&self) -> Outcome<T::V, Seq<char>, Seq<Seq<char>>> {
        match self {
            Outcome::Value(t) => Outcome::Value(t.deep_view()),
            Outcome::Fail(m) => Outcome::Fail(m@),
            Outcome::Need(a) => Outcome::Need(a.deep_view()),
            Outcome::Exhausted => Outcome::Exhausted,
        }
    }
}

/// What holds an evaluation up, whatever value it was to give.
pub open spec fn held<V, W>(o: Res<V>) -> Res<W> {
    match o {
        Outcome::Fail(m) => Outcome::Fail(m),
        Outcome::Need(a) => Outcome::Need(a),
        _ => Outcome::Exhausted,
    }
}

pub fn hold<T: DeepView, U: DeepView>(o: Outcome<T>) -> (r: Outcome<U>)
    ensures
        r.deep_view() == held::<T::V, U::V>(o.deep_view()),
{
    match o {
        Outcome::Fail(m) => Outcome::Fail(m),
        Outcome::Need(a) => Outcome::Need(a),
        _ => Outcome::Exhausted,
    }
}

/// What an evaluation works on: the sheet of the formula, the cells, and the answers so far.
pub struct Ctx<'a> {
    pub sheet: &'a str,
    pub cells: &'a Vec<(Key, String)>,
    pub answers: &'a Vec<(Ask, Reply)>,
}

#[verifier::ext_equal]
pub struct CtxModel {
    pub sheet: Seq<char>,
    pub cells: CellsModel,
    pub answers: Seq<(AskModel, Reply<Seq<char>>)>,
}

impl<'a> DeepView for Ctx<'a> {
    type V = CtxModel;

    open spec fn deep_view(&self) -> CtxModel {
        CtxModel {
            sheet: self.sheet@,
            cells: self.cells.deep_view(),
            answers: self.answers.deep_view(),
        }
    }
}

pub open spec fn number_for(c: CtxModel, op: Arith, args: Seq<Seq<char>>) -> Res<Seq<char>> {
    match entries::get(c.answers, Ask { op, args }) {
        Some(Reply::Number(t)) => Outcome::Value(t),
        Some(Reply::Failed(m)) => Outcome::Fail(m),
        _ => Outcome::Need(Ask { op, args }),
    }
}

pub open spec fn flag_for(c: CtxModel, op: Arith, args: Seq<Seq<char>>) -> Res<bool> {
    match entries::get(c.answers, Ask { op, args }) {
        Some(Reply::Flag(b)) => Outcome::Value(b),
        _ => Outcome::Need(Ask { op, args }),
    }
}

pub open spec fn count_for(c: CtxModel, op: Arith, args: Seq<Seq<char>>) -> Res<usize> {
    match entries::get(c.answers, Ask { op, args }) {
        Some(Reply::Count(n)) => Outcome::Value(n),
        _ => Outcome::Need(Ask { op, args }),
    }
}

pub fn ask_number(c: &Ctx, op: Arith, args: Vec<String>) -> (r: Outcome<String>)
    ensures
        r.deep_view() == number_for(c.deep_view(), op, args.deep_view()),
{
    let ask = Ask { op, args };
    match entries::map_get(c.answers, &ask) {
        Some(Reply::Number(t)) => Outcome::Value(t.clone()),
        Some(Reply::Failed(m)) => Outcome::Fail(m.clone()),
        _ => Outcome::Need(ask),
    }
}

fn ask_flag(c: &Ctx, op: Arith, args: Vec<String>) -> (r: Outcome<bool>)
    ensures
        r.deep_view() == flag_for(c.deep_view(), op, args.deep_view()),
{
    let ask = Ask { op, args };
    match entries::map_get(c.answers, &ask) {
        Some(Reply::Flag(b)) => Outcome::Value(*b),
        _ => Outcome::Need(ask),
    }
}

pub fn ask_count(c: &Ctx, op: Arith, args: Vec<String>) -> (r: Outcome<usize>)
    ensures
        r.deep_view() == count_for(c.deep_view(), op, args.deep_view()),
{
    let ask = Ask { op, args };
    match entries::map_get(c.answers, &ask) {
        Some(Reply::Count(n)) => Outcome::Value(*n),
        _ => Outcome::Need(ask),
    }
}

pub fn one(a: &str) -> (r: Vec<String>)
    ensures
        r.deep_view() == seq![a@],
{
    let v: Vec<String> = vec![a.to_owned()];
    assert(v.deep_view() == seq![a@]);
    v
}

fn two(a: &str, b: &str) -> (r: Vec<String>)
    ensures
        r.deep_view() == seq![a@, b@],
{
    let v: Vec<String> = vec![a.to_owned(), b.to_owned()];
    assert(v.deep_view() == seq![a@, b@]);
    v
}

fn three(a: &str, b: &str, c: &str) -> (r: Vec<String>)
    ensures
        r.deep_view() == seq![a@, b@, c@],
{
    let v: Vec<String> = vec![a.to_owned(), b.to_owned(), c.to_owned()];
    assert(v.deep_view() == seq![a@, b@, c@]);
    v
}

// ----- Conditions on values -----

/// The operators of conditions, in the order in which they are looked for.
pub open spec fn operators() -> Seq<Seq<char>> {
    seq![">="@, "<="@, "<>"@, ">"@, "<"@, "="@]
}

fn operator_list() -> (r: Vec<String>)
    ensures
        r.deep_view() == operators(),
{
    let v: Vec<String> = vec![
        ">=".to_owned(),
        "<=".to_owned(),
        "<>".to_owned(),
        ">".to_owned(),
        "<".to_owned(),
        "=".to_owned(),
    ];
    assert(v.deep_view() == operators());
    v
}

/// Whether two numbers differ: they have a difference, and are not equal.
pub open spec fn numbers_differ(c: CtxModel, a: Seq<char>, b: Seq<char>) -> Res<bool> {
    match flag_for(c, Arith::Comparable, seq![a, b]) {
        Outcome::Value(true) => match flag_for(c, Arith::Compare, seq![a, "="@, b]) {
            Outcome::Value(equal) => Outcome::Value(!equal),
            other => other,
        },
        other => other,
    }
}

fn differing(c: &Ctx, a: &str, b: &str) -> (r: Outcome<bool>)
    ensures
        r.deep_view() == numbers_differ(c.deep_view(), a@, b@),
{
    match ask_flag(c, Arith::Comparable, two(a, b)) {
        Outcome::Value(true) => match ask_flag(c, Arith::Compare, three(a, "=", b)) {
            Outcome::Value(equal) => Outcome::Value(!equal),
            other => other,
        },
        other => other,
    }
}

/// Whether `value` stands to `rhs` as the operator says: as numbers where both are numbers,
/// else only equality can hold or fail.
pub open spec fn compared(c: CtxModel, value: Seq<char>, op: Seq<char>, rhs: Seq<char>) -> Res<bool> {
    let right = calls::unquoted(rhs);
    if numbers::is_number(value) && numbers::is_number(right) {
        if op == "<>"@ {
            numbers_differ(c, value, right)
        } else {
            flag_for(c, Arith::Compare, seq![value, op, right])
        }
    } else if op == "<>"@ {
        Outcome::Value(value != right)
    } else if op == "="@ {
        Outcome::Value(value == right)
    } else {
        Outcome::Value(false)
    }
}

/// Where a side is no number, `<>` is the opposite of `=`, and no value is before or behind
/// another.
pub proof fn law_texts_are_alike_or_not(c: CtxModel, value: Seq<char>, rhs: Seq<char>)
    requires
        !numbers::is_number(value) || !numbers::is_number(calls::unquoted(rhs)),
    ensures
        compared(c, value, "="@, rhs) == Outcome::<bool, Seq<char>, Seq<Seq<char>>>::Value(
            value == calls::unquoted(rhs),
        ),
        compared(c, value, "<>"@, rhs) == Outcome::<bool, Seq<char>, Seq<Seq<char>>>::Value(
            value != calls::unquoted(rhs),
        ),
        forall|op: Seq<char>|
            op == ">"@ || op == "<"@ || op == ">="@ || op == "<="@ ==> #[trigger] compared(
                c,
                value,
                op,
                rhs,
            ) == Outcome::<bool, Seq<char>, Seq<Seq<char>>>::Value(false),
{
    reveal_strlit("=");
    reveal_strlit("<>");
    reveal_strlit(">");
    reveal_strlit("<");
    reveal_strlit(">=");
    reveal_strlit("<=");
    assert("<>"@[1] == '>');
    assert(">="@[0] == '>' && "<="@[1] == '=');
    assert("="@[0] == '=' && ">"@[0] == '>' && "<"@[0] == '<');
    assert("<>"@.len() == 2 && "="@.len() == 1);
}

/// Of two numbers that have a difference, `<>` is the opposite of `=`.
pub proof fn law_numbers_are_equal_or_not(c: CtxModel, value: Seq<char>, rhs: Seq<char>)
    requires
        numbers::is_number(value),
        numbers::is_number(calls::unquoted(rhs)),
        flag_for(c, Arith::Comparable, seq![value, calls::unquoted(rhs)]) == Outcome::<
            bool,
            Seq<char>,
            Seq<Seq<char>>,
        >::Value(true),
    ensures
        match compared(c, value, "="@, rhs) {
            Outcome::Value(equal) => compared(c, value, "<>"@, rhs) == Outcome::<
                bool,
                Seq<char>,
                Seq<Seq<char>>,
            >::Value(!equal),
            other => compared(c, value, "<>"@, rhs) == other,
        },
{
    reveal_strlit("=");
    reveal_strlit("<>");
    assert("<>"@.len() == 2 && "="@.len() == 1);
}

pub fn compare_criteria(c: &Ctx, value: &str, op: &str, rhs: &str) -> (r: Outcome<bool>)
    ensures
        r.deep_view() == compared(c.deep_view(), value@, op@, rhs@),
{
    let right = calls::strip_quotes(rhs);
    if numbers::number(value) && numbers::number(&right) {
        if text::same(op, "<>") {
            differing(c, value, &right)
        } else {
            ask_flag(c, Arith::Compare, three(value, op, &right))
        }
    } else if text::same(op, "<>") {
        Outcome::Value(!text::same(value, &right))
    } else if text::same(op, "=") {
        Outcome::Value(text::same(value, &right))
    } else {
        Outcome::Value(false)
    }
}

/// The operator that a criterion begins with, from the `i`-th on.
pub open spec fn leading_operator(s: Seq<char>, i: int) -> Option<(Seq<char>, Seq<char>)>
    decreases operators().len() - i,
{
    if i < 0 || i >= operators().len() {
        None
    } else {
        match text::without_prefix(s, operators()[i]) {
            Some(rest) => Some((operators()[i], rest)),
            None => leading_operator(s, i + 1),
        }
    }
}

fn split_operator(s: &str) -> (r: Option<(String, String)>)
    ensures
        r.deep_view() == leading_operator(s@, 0),
{
    let ops = operator_list();
    let mut i: usize = 0;
    while i < ops.len()
        invariant
            i <= ops.len(),
            ops.deep_view() == operators(),
            leading_operator(s@, 0) == leading_operator(s@, i as int),
        decreases ops.len() - i,
    {
        assert(operators()[i as int] == ops@[i as int]@);
        match text::strip_prefix(s, &ops[i]) {
            Some(rest) => return Some((ops[i].clone(), rest)),
            None => {},
        }
        i = i + 1;
    }
    None
}

/// Whether a value meets a criterion such as `>5`, or equals it where it has no operator.
pub open spec fn meets(c: CtxModel, value: Seq<char>, criterion: Seq<char>) -> Res<bool> {
    let s = text::trim(criterion);
    match leading_operator(s, 0) {
        Some((op, rest)) => compared(c, value, op, text::trim(rest)),
        None => Outcome::Value(value == s),
    }
}

pub fn criteria_matches(c: &Ctx, value: &str, criterion: &str) -> (r: Outcome<bool>)
    ensures
        r.deep_view() == meets(c.deep_view(), value@, criterion@),
{
    let s = text::trimmed(criterion);
    match split_operator(&s) {
        Some((op, rest)) => compare_criteria(c, value, &op, &text::trimmed(&rest)),
        None => Outcome::Value(text::same(value, &s)),
    }
}

/// What an argument that states a criterion stands for: the value of the cell that it names,
/// or its text.
pub open spec fn criterion(c: CtxModel, arg: Seq<char>) -> Seq<char> {
    match ranges::ref_cell(text::trim(arg), c.sheet) {
        Some(k) => ranges::value_at(c.cells, k),
        None => calls::unquoted(text::trim(arg)),
    }
}

pub fn eval_criteria(c: &Ctx, arg: &str) -> (r: String)
    ensures
        r@ == criterion(c.deep_view(), arg@),
{
    let s = text::trimmed(arg);
    match ranges::parse_ref(&s, c.sheet) {
        Some(k) => ranges::cell_value(c.cells, &k),
        None => calls::strip_quotes(&s),
    }
}

/// The value of an entry; empty behind the last one.
pub open spec fn entry_value(s: CellsModel, i: int) -> Seq<char> {
    if 0 <= i < s.len() {
        s[i].1
    } else {
        Seq::empty()
    }
}

fn value_of_entry(v: &Vec<(Key, String)>, i: usize) -> (r: String)
    ensures
        r@ == entry_value(v.deep_view(), i as int),
{
    if i < v.len() {
        assert(v.deep_view()[i as int] == v@[i as int].deep_view());
        v[i].1.clone()
    } else {
        String::new()
    }
}

/// Whether the `idx`-th values of the first ranges meet the criteria that go with them, the
/// first `n` pairs of `args` from `from` on looked at.
pub open spec fn pairs_met(
    c: CtxModel,
    args: Seq<Seq<char>>,
    from: int,
    n: int,
    idx: int,
) -> Res<bool>
    decreases n,
{
    if n <= 0 {
        Outcome::Value(true)
    } else {
        match pairs_met(c, args, from, n - 1, idx) {
            Outcome::Value(true) => {
                let at = from + 2 * (n - 1);
                meets(
                    c,
                    entry_value(ranges::values_in(args[at], c.sheet, c.cells), idx),
                    criterion(c, args[at + 1]),
                )
            },
            other => other,
        }
    }
}

fn pairs_meet(c: &Ctx, args: &Vec<String>, from: usize, n: usize, idx: usize) -> (r: Outcome<bool>)
    requires
        from + 2 * n <= args.len(),
    ensures
        r.deep_view() == pairs_met(
            c.deep_view(),
            args.deep_view(),
            from as int,
            n as int,
            idx as int,
        ),
    decreases n,
{
    if n == 0 {
        return Outcome::Value(true);
    }
    match pairs_meet(c, args, from, n - 1, idx) {
        Outcome::Value(true) => {},
        other => return other,
    }
    let at = from + 2 * (n - 1);
    assert(args.deep_view()[at as int] == args@[at as int]@);
    assert(args.deep_view()[at + 1] == args@[at + 1]@);
    let values = ranges::range_values(&args[at], c.sheet, c.cells);
    let value = value_of_entry(&values, idx);
    criteria_matches(c, &value, &eval_criteria(c, &args[at + 1]))
}

/// The values of `sums` among the first `n` whose places meet the criteria.
pub open spec fn met_values(
    c: CtxModel,
    args: Seq<Seq<char>>,
    from: int,
    pairs: int,
    sums: CellsModel,
    n: int,
) -> Res<Seq<Seq<char>>>
    decreases n,
{
    if n <= 0 {
        Outcome::Value(Seq::empty())
    } else {
        match met_values(c, args, from, pairs, sums, n - 1) {
            Outcome::Value(done) => match pairs_met(c, args, from, pairs, n - 1) {
                Outcome::Value(met) => Outcome::Value(
                    if met {
                        done.push(entry_value(sums, n - 1))
                    } else {
                        done
                    },
                ),
                other => held(other),
            },
            other => other,
        }
    }
}

fn values_met(
    c: &Ctx,
    args: &Vec<String>,
    from: usize,
    pairs: usize,
    sums: &Vec<(Key, String)>,
    n: usize,
) -> (r: Outcome<Vec<String>>)
    requires
        from + 2 * pairs <= args.len(),
    ensures
        r.deep_view() == met_values(
            c.deep_view(),
            args.deep_view(),
            from as int,
            pairs as int,
            sums.deep_view(),
            n as int,
        ),
{
    let ghost m = c.deep_view();
    let ghost a = args.deep_view();
    let ghost s = sums.deep_view();
    let mut out: Vec<String> = Vec::new();
    assert(out.deep_view() == Seq::<Seq<char>>::empty());
    let mut i: usize = 0;
    while i < n
        invariant
            i <= n,
            from + 2 * pairs <= args.len(),
            met_values(m, a, from as int, pairs as int, s, i as int) == Res::<
                Seq<Seq<char>>,
            >::Value(out.deep_view()),
        decreases n - i,
    {
        match pairs_meet(c, args, from, pairs, i) {
            Outcome::Value(true) => {
                let value = value_of_entry(sums, i);
                let ghost done = out.deep_view();
                out.push(value);
                assert(out.deep_view() == done.push(value@));
            },
            Outcome::Value(false) => {},
            other => {
                proof {
                    lemma_met_values_held(m, a, from as int, pairs as int, s, i + 1, n as int);
                }
                return hold(other);
            },
        }
        i = i + 1;
    }
    Outcome::Value(out)
}

proof fn lemma_met_values_held(
    c: CtxModel,
    args: Seq<Seq<char>>,
    from: int,
    pairs: int,
    sums: CellsModel,
    i: int,
    n: int,
)
    requires
        0 < i <= n,
        !(met_values(c, args, from, pairs, sums, i) is Value),
    ensures
        met_values(c, args, from, pairs, sums, n) == met_values(c, args, from, pairs, sums, i),
    decreases n - i,
{
    if i < n {
        lemma_met_values_held(c, args, from, pairs, sums, i, n - 1);
    }
}

// ----- The functions -----

/// The functions that are evaluated; `Amp` is the operator `&`.
#[derive(Clone, Copy, PartialEq, Eq, Structural)]
pub enum Func {
    Iferror,
    If,
    And,
    Or,
    Not,
    Sumifs,
    Sumif,
    Countifs,
    Countif,
    Vlookup,
    Index,
    Match,
    Sum,
    Average,
    Max,
    Min,
    Count,
    Counta,
    Countblank,
    Len,
    Trim,
    Left,
    Right,
    Mid,
    Value,
    Text,
    Concat,
    Textjoin,
    Round,
    Amp,
}

pub open spec fn func_name(f: Func) -> Seq<char> {
    match f {
        Func::Iferror => "IFERROR"@,
        Func::If => "IF"@,
        Func::And => "AND"@,
        Func::Or => "OR"@,
        Func::Not => "NOT"@,
        Func::Sumifs => "SUMIFS"@,
        Func::Sumif => "SUMIF"@,
        Func::Countifs => "COUNTIFS"@,
        Func::Countif => "COUNTIF"@,
        Func::Vlookup => "VLOOKUP"@,
        Func::Index => "INDEX"@,
        Func::Match => "MATCH"@,
        Func::Sum => "SUM"@,
        Func::Average => "AVERAGE"@,
        Func::Max => "MAX"@,
        Func::Min => "MIN"@,
        Func::Count => "COUNT"@,
        Func::Counta => "COUNTA"@,
        Func::Countblank => "COUNTBLANK"@,
        Func::Len => "LEN"@,
        Func::Trim => "TRIM"@,
        Func::Left => "LEFT"@,
        Func::Right => "RIGHT"@,
        Func::Mid => "MID"@,
        Func::Value => "VALUE"@,
        Func::Text => "TEXT"@,
        Func::Concat => "CONCAT"@,
        Func::Textjoin => "TEXTJOIN"@,
        Func::Round => "ROUND"@,
        Func::Amp => ""@,
    }
}

fn name_of(f: Func) -> (r: &'static str)
    ensures
        r@ == func_name(f),
{
    match f {
        Func::Iferror => "IFERROR",
        Func::If => "IF",
        Func::And => "AND",
        Func::Or => "OR",
        Func::Not => "NOT",
        Func::Sumifs => "SUMIFS",
        Func::Sumif => "SUMIF",
        Func::Countifs => "COUNTIFS",
        Func::Countif => "COUNTIF",
        Func::Vlookup => "VLOOKUP",
        Func::Index => "INDEX",
        Func::Match => "MATCH",
        Func::Sum => "SUM",
        Func::Average => "AVERAGE",
        Func::Max => "MAX",
        Func::Min => "MIN",
        Func::Count => "COUNT",
        Func::Counta => "COUNTA",
        Func::Countblank => "COUNTBLANK",
        Func::Len => "LEN",
        Func::Trim => "TRIM",
        Func::Left => "LEFT",
        Func::Right => "RIGHT",
        Func::Mid => "MID",
        Func::Value => "VALUE",
        Func::Text => "TEXT",
        Func::Concat => "CONCAT",
        Func::Textjoin => "TEXTJOIN",
        Func::Round => "ROUND",
        Func::Amp => "",
    }
}

/// The functions of a formula, in the order in which their calls are replaced.
pub open spec fn formula_stages() -> Seq<Func> {
    seq![Func::Iferror, Func::If, Func::And, Func::Or, Func::Not, Func::Sumifs, Func::Sumif, Func::Countifs, Func::Countif, Func::Vlookup, Func::Index, Func::Match, Func::Sum, Func::Average, Func::Max, Func::Min, Func::Count, Func::Counta, Func::Countblank, Func::Len, Func::Trim, Func::Left, Func::Right, Func::Mid, Func::Value, Func::Text, Func::Concat, Func::Textjoin, Func::Amp, Func::Round]
}

fn formula_stages_list() -> (r: Vec<Func>)
    ensures
        r@ == formula_stages(),
{
    let v: Vec<Func> = vec![Func::Iferror, Func::If, Func::And, Func::Or, Func::Not, Func::Sumifs, Func::Sumif, Func::Countifs, Func::Countif, Func::Vlookup, Func::Index, Func::Match, Func::Sum, Func::Average, Func::Max, Func::Min, Func::Count, Func::Counta, Func::Countblank, Func::Len, Func::Trim, Func::Left, Func::Right, Func::Mid, Func::Value, Func::Text, Func::Concat, Func::Textjoin, Func::Amp, Func::Round];
    assert(v@ == formula_stages());
    v
}

/// The functions of an argument that stands for a number.
pub open spec fn numeric_stages() -> Seq<Func> {
    seq![Func::Countifs, Func::Sumifs, Func::Sumif, Func::Countif, Func::Vlookup, Func::Index, Func::Match, Func::Sum, Func::Average, Func::Max, Func::Min, Func::Count, Func::Counta, Func::Countblank, Func::Len, Func::Trim, Func::Left, Func::Right, Func::Mid, Func::Value, Func::Text, Func::Concat, Func::Textjoin, Func::Round]
}

fn numeric_stages_list() -> (r: Vec<Func>)
    ensures
        r@ == numeric_stages(),
{
    let v: Vec<Func> = vec![Func::Countifs, Func::Sumifs, Func::Sumif, Func::Countif, Func::Vlookup, Func::Index, Func::Match, Func::Sum, Func::Average, Func::Max, Func::Min, Func::Count, Func::Counta, Func::Countblank, Func::Len, Func::Trim, Func::Left, Func::Right, Func::Mid, Func::Value, Func::Text, Func::Concat, Func::Textjoin, Func::Round];
    assert(v@ == numeric_stages());
    v
}

/// The functions on text.
pub open spec fn text_stages() -> Seq<Func> {
    seq![Func::Len, Func::Trim, Func::Left, Func::Right, Func::Mid, Func::Value, Func::Text, Func::Concat, Func::Textjoin]
}

fn text_stages_list() -> (r: Vec<Func>)
    ensures
        r@ == text_stages(),
{
    let v: Vec<Func> = vec![Func::Len, Func::Trim, Func::Left, Func::Right, Func::Mid, Func::Value, Func::Text, Func::Concat, Func::Textjoin];
    assert(v@ == text_stages());
    v
}

/// The lookups.
pub open spec fn lookup_stages() -> Seq<Func> {
    seq![Func::Vlookup, Func::Index, Func::Match]
}

fn lookup_stages_list() -> (r: Vec<Func>)
    ensures
        r@ == lookup_stages(),
{
    let v: Vec<Func> = vec![Func::Vlookup, Func::Index, Func::Match];
    assert(v@ == lookup_stages());
    v
}

/// The functions of truth values.
pub open spec fn logical_stages() -> Seq<Func> {
    seq![Func::And, Func::Or, Func::Not]
}

fn logical_stages_list() -> (r: Vec<Func>)
    ensures
        r@ == logical_stages(),
{
    let v: Vec<Func> = vec![Func::And, Func::Or, Func::Not];
    assert(v@ == logical_stages());
    v
}

// ----- What needs no other expression -----

pub const FUNCTION_PATTERN: &'static str = r"(?i)\b([A-Z][A-Z0-9_]*)\s*\(";

pub const REF_PATTERN: &'static str = r"(?i)(?:(?:'([^']+)'|([A-Za-z_][A-Za-z0-9_ ]*))!)?\$?([A-Z]{1,3})\$?([0-9]+)";

/// The error for a function call that is still there.
pub open spec fn unsupported(expr: Seq<char>) -> Option<Seq<char>> {
    match pattern::first_match(FUNCTION_PATTERN@, expr) {
        Some(g) => Some(
            "unsupported_formula: "@ + (match pattern::group(g, 1) {
                Some(t) => t,
                None => "UNKNOWN"@,
            }),
        ),
        None => None,
    }
}

pub fn reject_unsupported_functions(expr: &str) -> (r: Option<String>)
    ensures
        r.deep_view() == unsupported(expr@),
{
    match pattern::find_first(FUNCTION_PATTERN, expr) {
        Some(g) => {
            let mut out = "unsupported_formula: ".to_owned();
            match pattern::group_of(&g, 1) {
                Some(t) => out.append(&t),
                None => out.append("UNKNOWN"),
            }
            Some(out)
        },
        None => None,
    }
}

pub open spec fn is_operator_char(c: char) -> bool {
    c == '+' || c == '-' || c == '*' || c == '/' || c == '^' || c == '(' || c == ')' || c == '<'
        || c == '>' || c == '='
}

/// Whether a text is a number or has a sign of arithmetic in it.
pub open spec fn looks_numeric(s: Seq<char>) -> bool {
    numbers::is_number(text::trim(s)) || exists|i: int|
        0 <= i < text::trim(s).len() && is_operator_char(#[trigger] text::trim(s)[i])
}

pub fn looks_like_numeric_expression(expr: &str) -> (r: bool)
    ensures
        r == looks_numeric(expr@),
{
    let t = text::trimmed(expr);
    if numbers::number(&t) {
        return true;
    }
    let c = text::chars_of(&t);
    let mut i: usize = 0;
    while i < c.len()
        invariant
            i <= c.len(),
            c@ == text::trim(expr@),
            forall|k: int| 0 <= k < i ==> !is_operator_char(#[trigger] c@[k]),
        decreases c.len() - i,
    {
        let ch = c[i];
        if ch == '+' || ch == '-' || ch == '*' || ch == '/' || ch == '^' || ch == '(' || ch == ')'
            || ch == '<' || ch == '>' || ch == '=' {
            assert(is_operator_char(text::trim(expr@)[i as int]));
            return true;
        }
        i = i + 1;
    }
    false
}

/// The number that stands for a reference: zero where the cell holds none.
pub open spec fn ref_number(c: CtxModel, g: Seq<Option<Seq<char>>>) -> Res<Seq<char>> {
    let col = deps::or_size(deps::col_of(pattern::group(g, 3)), 1);
    let row = deps::or_size(deps::row_of(pattern::group(g, 4)), 1);
    let value = ranges::value_at(
        c.cells,
        coord::key(ranges::sheet_group(g, c.sheet), row, col),
    );
    if numbers::is_number(value) {
        number_for(c, Arith::Format, seq![value])
    } else {
        Outcome::Value("0"@)
    }
}

fn number_of_ref(c: &Ctx, g: &Vec<Option<String>>) -> (r: Outcome<String>)
    ensures
        r.deep_view() == ref_number(c.deep_view(), g.deep_view()),
{
    let col = match deps::group_col(g, 3) {
        Some(n) => n,
        None => 1,
    };
    let row = match deps::group_row(g, 4) {
        Some(n) => n,
        None => 1,
    };
    let value = ranges::cell_value(
        c.cells,
        &Key { sheet: ranges::sheet_group_of(g, c.sheet), row, col },
    );
    if numbers::number(&value) {
        ask_number(c, Arith::Format, one(&value))
    } else {
        Outcome::Value("0".to_owned())
    }
}

/// The text up to the end of the last match, each reference replaced by its number.
pub open spec fn refs_in_hits(
    c: CtxModel,
    hits: Seq<(Seq<char>, Seq<Option<Seq<char>>>)>,
) -> Res<Seq<char>>
    decreases hits.len(),
{
    if hits.len() == 0 {
        Outcome::Value(Seq::empty())
    } else {
        match refs_in_hits(c, hits.drop_last()) {
            Outcome::Value(done) => match ref_number(c, hits.last().1) {
                Outcome::Value(n) => Outcome::Value(done + hits.last().0 + n),
                other => other,
            },
            other => other,
        }
    }
}

pub open spec fn refs_replaced(c: CtxModel, expr: Seq<char>) -> Res<Seq<char>> {
    let found = pattern::scan(REF_PATTERN@, expr);
    match refs_in_hits(c, found.0) {
        Outcome::Value(done) => Outcome::Value(done + found.1),
        other => other,
    }
}

proof fn lemma_refs_held(
    c: CtxModel,
    hits: Seq<(Seq<char>, Seq<Option<Seq<char>>>)>,
    i: int,
)
    requires
        0 <= i <= hits.len(),
        !(refs_in_hits(c, hits.take(i)) is Value),
    ensures
        refs_in_hits(c, hits) == refs_in_hits(c, hits.take(i)),
    decreases hits.len() - i,
{
    if i < hits.len() {
        assert(hits.take(i + 1).drop_last() == hits.take(i));
        lemma_refs_held(c, hits, i + 1);
    } else {
        assert(hits.take(i) == hits);
    }
}

/// Replaces the references found in an expression by their numbers.
pub fn replace_ref_hits(c: &Ctx, hits: &Vec<(String, Vec<Option<String>>)>, rest: &str) -> (r:
    Outcome<String>)
    ensures
        r.deep_view() == (match refs_in_hits(c.deep_view(), hits.deep_view()) {
            Outcome::Value(done) => Outcome::Value(done + rest@),
            other => other,
        }),
{
    let ghost all = hits.deep_view();
    let mut out = String::new();
    let mut i: usize = 0;
    while i < hits.len()
        invariant
            i <= hits.len(),
            all == hits.deep_view(),
            refs_in_hits(c.deep_view(), all.take(i as int)) == Res::<Seq<char>>::Value(out@),
        decreases hits.len() - i,
    {
        assert(all.take(i + 1).drop_last() == all.take(i as int));
        assert(all.take(i + 1).last() == hits@[i as int].deep_view());
        match number_of_ref(c, &hits[i].1) {
            Outcome::Value(n) => {
                out.append(&hits[i].0);
                out.append(&n);
            },
            other => {
                proof {
                    lemma_refs_held(c.deep_view(), all, i + 1);
                }
                return other;
            },
        }
        i = i + 1;
    }
    assert(all.take(all.len() as int) == all);
    out.append(rest);
    Outcome::Value(out)
}

pub fn replace_cell_refs(c: &Ctx, expr: &str) -> (r: Outcome<String>)
    ensures
        r.deep_view() == refs_replaced(c.deep_view(), expr@),
{
    let found = pattern::find_all(REF_PATTERN, expr);
    replace_ref_hits(c, &found.0, &found.1)
}

/// What an expression without calls comes to.
pub open spec fn settled(c: CtxModel, expr: Seq<char>) -> Res<Seq<char>> {
    match unsupported(expr) {
        Some(m) => Outcome::Fail(m),
        None => match refs_replaced(c, expr) {
            Outcome::Value(t) => {
                let e = text::trim(t);
                if e.len() == 0 {
                    Outcome::Value(Seq::empty())
                } else if calls::is_quoted(e) || !looks_numeric(e) {
                    Outcome::Value(calls::unquoted(e))
                } else {
                    match number_for(c, Arith::Evaluate, seq![e]) {
                        Outcome::Value(n) => number_for(c, Arith::Format, seq![n]),
                        other => other,
                    }
                }
            },
            other => other,
        },
    }
}

pub fn settle(c: &Ctx, expr: &str) -> (r: Outcome<String>)
    ensures
        r.deep_view() == settled(c.deep_view(), expr@),
{
    match reject_unsupported_functions(expr) {
        Some(m) => return Outcome::Fail(m),
        None => {},
    }
    let t = match replace_cell_refs(c, expr) {
        Outcome::Value(t) => t,
        other => return other,
    };
    let e = text::trimmed(&t);
    if e.as_str().is_empty() {
        return Outcome::Value(String::new());
    }
    if calls::in_quotes(&e) || !looks_like_numeric_expression(&e) {
        return Outcome::Value(calls::strip_quotes(&e));
    }
    match ask_number(c, Arith::Evaluate, one(&e)) {
        Outcome::Value(n) => ask_number(c, Arith::Format, one(&n)),
        other => other,
    }
}

/// What an expression without calls comes to as a number.
pub open spec fn settled_number(c: CtxModel, expr: Seq<char>) -> Res<Seq<char>> {
    match unsupported(expr) {
        Some(m) => Outcome::Fail(m),
        None => match refs_replaced(c, expr) {
            Outcome::Value(t) => number_for(c, Arith::Evaluate, seq![t]),
            other => other,
        },
    }
}

pub fn settle_number(c: &Ctx, expr: &str) -> (r: Outcome<String>)
    ensures
        r.deep_view() == settled_number(c.deep_view(), expr@),
{
    match reject_unsupported_functions(expr) {
        Some(m) => return Outcome::Fail(m),
        None => {},
    }
    match replace_cell_refs(c, expr) {
        Outcome::Value(t) => ask_number(c, Arith::Evaluate, one(&t)),
        other => other,
    }
}

// ----- Sums, counts and formats -----

/// The values that the arguments of an aggregate stand for.
pub open spec fn aggregate_values(c: CtxModel, args: Seq<Seq<char>>) -> Seq<Seq<char>>
    decreases args.len(),
{
    if args.len() == 0 {
        Seq::empty()
    } else {
        let arg = text::trim(args.last());
        aggregate_values(c, args.drop_last()) + (if text::contains(arg, ":"@) {
            second_parts(ranges::values_in(arg, c.sheet, c.cells))
        } else {
            match ranges::ref_cell(arg, c.sheet) {
                Some(k) => seq![ranges::value_at(c.cells, k)],
                None => seq![arg],
            }
        })
    }
}

pub open spec fn second_parts(s: CellsModel) -> Seq<Seq<char>> {
    Seq::new(s.len(), |i: int| s[i].1)
}

fn collect_values(c: &Ctx, args: &Vec<String>) -> (r: Vec<String>)
    ensures
        r.deep_view() == aggregate_values(c.deep_view(), args.deep_view()),
{
    let ghost all = args.deep_view();
    let mut out: Vec<String> = Vec::new();
    assert(out.deep_view() == Seq::<Seq<char>>::empty());
    let mut i: usize = 0;
    while i < args.len()
        invariant
            i <= args.len(),
            all == args.deep_view(),
            out.deep_view() == aggregate_values(c.deep_view(), all.take(i as int)),
        decreases args.len() - i,
    {
        assert(all.take(i + 1).drop_last() == all.take(i as int));
        assert(all.take(i + 1).last() == args@[i as int]@);
        let arg = text::trimmed(&args[i]);
        let ghost done = out.deep_view();
        if text::has(&arg, ":") {
            let found = ranges::range_values(&arg, c.sheet, c.cells);
            let ghost more = second_parts(found.deep_view());
            let mut j: usize = 0;
            assert(done + more.take(0) == done);
            while j < found.len()
                invariant
                    j <= found.len(),
                    more == second_parts(found.deep_view()),
                    out.deep_view() == done + more.take(j as int),
                decreases found.len() - j,
            {
                let ghost before = out.deep_view();
                out.push(found[j].1.clone());
                assert(out.deep_view() == before.push(more[j as int]));
                assert(done + more.take(j + 1) == (done + more.take(j as int)).push(
                    more[j as int],
                ));
                j = j + 1;
            }
            assert(more.take(more.len() as int) == more);
        } else {
            let value = match ranges::parse_ref(&arg, c.sheet) {
                Some(k) => ranges::cell_value(c.cells, &k),
                None => arg,
            };
            out.push(value);
            assert(out.deep_view() == done.push(value@));
            assert(done.push(value@) == done + seq![value@]);
        }
        i = i + 1;
    }
    assert(all.take(all.len() as int) == all);
    out
}

/// The texts of a list that are numbers.
pub open spec fn numbers_of(s: Seq<Seq<char>>) -> Seq<Seq<char>>
    decreases s.len(),
{
    if s.len() == 0 {
        s
    } else if numbers::is_number(s.last()) {
        numbers_of(s.drop_last()).push(s.last())
    } else {
        numbers_of(s.drop_last())
    }
}

fn only_numbers(v: &Vec<String>) -> (r: Vec<String>)
    ensures
        r.deep_view() == numbers_of(v.deep_view()),
{
    let ghost all = v.deep_view();
    let mut out: Vec<String> = Vec::new();
    assert(all.take(0) == Seq::<Seq<char>>::empty());
    assert(out.deep_view() == Seq::<Seq<char>>::empty());
    let mut i: usize = 0;
    while i < v.len()
        invariant
            i <= v.len(),
            all == v.deep_view(),
            out.deep_view() == numbers_of(all.take(i as int)),
        decreases v.len() - i,
    {
        assert(all.take(i + 1).drop_last() == all.take(i as int));
        assert(all.take(i + 1).last() == v@[i as int]@);
        if numbers::number(&v[i]) {
            let ghost done = out.deep_view();
            out.push(v[i].clone());
            assert(out.deep_view() == done.push(all[i as int]));
        }
        i = i + 1;
    }
    assert(all.take(all.len() as int) == all);
    out
}

fn only_nonempty(v: &Vec<String>) -> (r: Vec<String>)
    ensures
        r.deep_view() == text::nonempty(v.deep_view()),
{
    let ghost all = v.deep_view();
    let mut out: Vec<String> = Vec::new();
    assert(all.take(0) == Seq::<Seq<char>>::empty());
    assert(out.deep_view() == Seq::<Seq<char>>::empty());
    let mut i: usize = 0;
    while i < v.len()
        invariant
            i <= v.len(),
            all == v.deep_view(),
            out.deep_view() == text::nonempty(all.take(i as int)),
        decreases v.len() - i,
    {
        assert(all.take(i + 1).drop_last() == all.take(i as int));
        assert(all.take(i + 1).last() == v@[i as int]@);
        if !v[i].as_str().is_empty() {
            let ghost done = out.deep_view();
            out.push(v[i].clone());
            assert(out.deep_view() == done.push(all[i as int]));
        }
        i = i + 1;
    }
    assert(all.take(all.len() as int) == all);
    out
}

/// What an aggregate comes to.
pub open spec fn aggregate(f: Func, c: CtxModel, args: Seq<Seq<char>>) -> Res<Seq<char>> {
    let values = aggregate_values(c, args);
    match f {
        Func::Count => Outcome::Value(text::decimal(numbers_of(values).len())),
        Func::Counta => Outcome::Value(text::decimal(text::nonempty(values).len())),
        Func::Countblank => Outcome::Value(
            text::decimal((values.len() - text::nonempty(values).len()) as nat),
        ),
        Func::Average => number_for(c, Arith::Average, numbers_of(values)),
        Func::Max => number_for(c, Arith::Max, numbers_of(values)),
        Func::Min => number_for(c, Arith::Min, numbers_of(values)),
        _ => number_for(c, Arith::Total, numbers_of(values)),
    }
}

proof fn lemma_nonempty_len(s: Seq<Seq<char>>)
    ensures
        text::nonempty(s).len() <= s.len(),
    decreases s.len(),
{
    if s.len() > 0 {
        lemma_nonempty_len(s.drop_last());
    }
}

pub fn eval_aggregate(f: Func, c: &Ctx, args: &Vec<String>) -> (r: Outcome<String>)
    ensures
        r.deep_view() == aggregate(f, c.deep_view(), args.deep_view()),
{
    let values = collect_values(c, args);
    match f {
        Func::Count => {
            let found = only_numbers(&values);
            assert(found.deep_view().len() == found.len());
            Outcome::Value(text::size_text(found.len()))
        },
        Func::Counta => {
            let found = only_nonempty(&values);
            assert(found.deep_view().len() == found.len());
            Outcome::Value(text::size_text(found.len()))
        },
        Func::Countblank => {
            let found = only_nonempty(&values);
            proof {
                assert(found.deep_view().len() == found.len());
                assert(values.deep_view().len() == values.len());
                lemma_nonempty_len(values.deep_view());
            }
            Outcome::Value(text::size_text(values.len() - found.len()))
        },
        Func::Average => ask_number(c, Arith::Average, only_numbers(&values)),
        Func::Max => ask_number(c, Arith::Max, only_numbers(&values)),
        Func::Min => ask_number(c, Arith::Min, only_numbers(&values)),
        _ => ask_number(c, Arith::Total, only_numbers(&values)),
    }
}

pub open spec fn all_zeros(s: Seq<char>) -> bool {
    forall|i: int| 0 <= i < s.len() ==> #[trigger] s[i] == '0'
}

fn zeros_only(s: &str) -> (r: bool)
    ensures
        r == all_zeros(s@),
{
    let c = text::chars_of(s);
    let mut i: usize = 0;
    while i < c.len()
        invariant
            i <= c.len(),
            c@ == s@,
            forall|k: int| 0 <= k < i ==> #[trigger] c@[k] == '0',
        decreases c.len() - i,
    {
        if c[i] != '0' {
            return false;
        }
        i = i + 1;
    }
    true
}

/// The decimals that a number format asks for, and whether it asks for percent.
pub open spec fn number_format(code: Seq<char>) -> Option<(bool, nat)> {
    if code == "0"@ {
        Some((false, 0))
    } else {
        match text::without_prefix(code, "0."@) {
            Some(tail) => if all_zeros(tail) {
                Some((false, tail.len()))
            } else {
                match text::without_suffix(tail, "%"@) {
                    Some(body) => if all_zeros(body) {
                        Some((true, body.len()))
                    } else {
                        None
                    },
                    None => None,
                }
            },
            None => if code == "0%"@ {
                Some((true, 0))
            } else {
                None
            },
        }
    }
}

/// A number in a number format.
pub open spec fn formatted(c: CtxModel, value: Seq<char>, format_code: Seq<char>) -> Res<Seq<char>> {
    let code = text::trim(format_code);
    match number_format(code) {
        Some((percent, places)) => number_for(
            c,
            if percent {
                Arith::Percent
            } else {
                Arith::Fixed
            },
            seq![value, text::decimal(places)],
        ),
        None => Outcome::Fail("unsupported_formula: TEXT format is not supported: "@ + code),
    }
}

fn format_places(code: &str) -> (r: Option<(bool, usize)>)
    ensures
        (match r {
            Some((p, n)) => Some((p, n as nat)),
            None => None,
        }) == number_format(code@),
{
    if text::same(code, "0") {
        return Some((false, 0));
    }
    match text::strip_prefix(code, "0.") {
        Some(tail) => {
            if zeros_only(&tail) {
                return Some((false, text::chars_of(&tail).len()));
            }
            match text::strip_suffix(&tail, "%") {
                Some(body) => if zeros_only(&body) {
                    Some((true, text::chars_of(&body).len()))
                } else {
                    None
                },
                None => None,
            }
        },
        None => if text::same(code, "0%") {
            Some((true, 0))
        } else {
            None
        },
    }
}

pub fn format_text_value(c: &Ctx, value: &str, format_code: &str) -> (r: Outcome<String>)
    ensures
        r.deep_view() == formatted(c.deep_view(), value@, format_code@),
{
    let code = text::trimmed(format_code);
    match format_places(&code) {
        Some((percent, places)) => ask_number(
            c,
            if percent {
                Arith::Percent
            } else {
                Arith::Fixed
            },
            two(value, &text::size_text(places)),
        ),
        None => {
            let mut m = "unsupported_formula: TEXT format is not supported: ".to_owned();
            m.append(&code);
            Outcome::Fail(m)
        },
    }
}

// ----- Lookups -----

pub open spec fn first_is(row: CellsModel, x: Seq<char>) -> bool {
    row.len() > 0 && row[0].1 == x
}

/// The first row from `i` on that begins with `x`.
pub open spec fn row_with(rows: Seq<CellsModel>, x: Seq<char>, i: int) -> Option<int>
    decreases rows.len() - i,
{
    if i < 0 || i >= rows.len() {
        None
    } else if first_is(rows[i], x) {
        Some(i)
    } else {
        row_with(rows, x, i + 1)
    }
}

pub open spec fn one_less(n: usize) -> int {
    if n == 0 {
        0
    } else {
        n - 1
    }
}

/// The value in the given column of the first row that begins with `x`; `None` where there
/// is no such row or it is too short.
pub open spec fn looked_up(rows: Seq<CellsModel>, x: Seq<char>, col: usize) -> Option<Seq<char>> {
    match row_with(rows, x, 0) {
        Some(i) => if one_less(col) < rows[i].len() {
            Some(rows[i][one_less(col)].1)
        } else {
            None
        },
        None => None,
    }
}

pub fn lookup_in_rows(rows: &Vec<Vec<(Key, String)>>, x: &str, col: usize) -> (r: Option<String>)
    ensures
        r.deep_view() == looked_up(rows.deep_view(), x@, col),
{
    let ghost all = rows.deep_view();
    let mut i: usize = 0;
    while i < rows.len()
        invariant
            i <= rows.len(),
            all == rows.deep_view(),
            row_with(all, x@, 0) == row_with(all, x@, i as int),
        decreases rows.len() - i,
    {
        let row = &rows[i];
        assert(all[i as int] == row.deep_view());
        assert(row.deep_view().len() == row.len());
        if row.len() > 0 {
            assert(row.deep_view()[0] == row@[0].deep_view());
            if text::same(&row[0].1, x) {
                let at = if col == 0 { 0 } else { col - 1 };
                return if at < row.len() {
                    assert(row.deep_view()[at as int] == row@[at as int].deep_view());
                    Some(row[at].1.clone())
                } else {
                    None
                };
            }
        }
        i = i + 1;
    }
    None
}

/// The value in a row and column of a range; empty outside it.
pub open spec fn indexed(rows: Seq<CellsModel>, row: usize, col: usize) -> Seq<char> {
    if one_less(row) < rows.len() {
        entry_value(rows[one_less(row)], one_less(col))
    } else {
        Seq::empty()
    }
}

pub fn index_in_rows(rows: &Vec<Vec<(Key, String)>>, row: usize, col: usize) -> (r: String)
    ensures
        r@ == indexed(rows.deep_view(), row, col),
{
    let i = if row == 0 { 0 } else { row - 1 };
    assert(rows.deep_view().len() == rows.len());
    if i < rows.len() {
        assert(rows.deep_view()[i as int] == rows@[i as int].deep_view());
        value_of_entry(&rows[i], if col == 0 { 0 } else { col - 1 })
    } else {
        String::new()
    }
}

/// The first place from `i` on at which a value stands.
pub open spec fn value_from(s: CellsModel, x: Seq<char>, i: int) -> Option<int>
    decreases s.len() - i,
{
    if i < 0 || i >= s.len() {
        None
    } else if s[i].1 == x {
        Some(i)
    } else {
        value_from(s, x, i + 1)
    }
}

/// The number of the first place, counted from 1, at which a value stands.
pub open spec fn match_place(s: CellsModel, x: Seq<char>) -> Option<nat> {
    match value_from(s, x, 0) {
        Some(i) => Some((i + 1) as nat),
        None => None,
    }
}

pub fn match_in_values(v: &Vec<(Key, String)>, x: &str) -> (r: Option<String>)
    ensures
        r.deep_view() == (match match_place(v.deep_view(), x@) {
            Some(n) => Some(text::decimal(n)),
            None => None,
        }),
{
    let ghost all = v.deep_view();
    let mut i: usize = 0;
    while i < v.len()
        invariant
            i <= v.len(),
            all == v.deep_view(),
            value_from(all, x@, 0) == value_from(all, x@, i as int),
        decreases v.len() - i,
    {
        assert(all[i as int] == v@[i as int].deep_view());
        if text::same(&v[i].1, x) {
            return Some(text::size_text(i + 1));
        }
        i = i + 1;
    }
    None
}

/// The operator that stands somewhere in a condition, from the `i`-th of the list on, and
/// where.
pub open spec fn inner_operator(s: Seq<char>, i: int) -> Option<(Seq<char>, int)>
    decreases operators().len() - i,
{
    if i < 0 || i >= operators().len() {
        None
    } else {
        match text::find(s, operators()[i]) {
            Some(at) => Some((operators()[i], at)),
            None => inner_operator(s, i + 1),
        }
    }
}

/// The two sides of the operator of a condition.
pub open spec fn condition_sides(s: Seq<char>) -> Option<(Seq<char>, Seq<char>, Seq<char>)> {
    match inner_operator(s, 0) {
        Some((op, at)) => Some(
            (text::slice(s, 0, at), op, text::slice(s, at + op.len(), s.len() as int)),
        ),
        None => None,
    }
}

pub fn split_condition(condition: &str) -> (r: Option<(String, String, String)>)
    ensures
        r.deep_view() == condition_sides(condition@),
{
    let ops = operator_list();
    let mut i: usize = 0;
    while i < ops.len()
        invariant
            i <= ops.len(),
            ops.deep_view() == operators(),
            inner_operator(condition@, 0) == inner_operator(condition@, i as int),
        decreases ops.len() - i,
    {
        assert(operators()[i as int] == ops@[i as int]@);
        match text::split_once(condition, &ops[i]) {
            Some((left, right)) => return Some((left, ops[i].clone(), right)),
            None => {},
        }
        i = i + 1;
    }
    None
}

pub open spec fn truth(b: bool) -> Seq<char> {
    if b {
        "1"@
    } else {
        "0"@
    }
}

fn truth_text(b: bool) -> (r: String)
    ensures
        r@ == truth(b),
{
    if b {
        "1".to_owned()
    } else {
        "0".to_owned()
    }
}

// ----- Calls -----

pub type Args = Seq<Seq<char>>;

/// The value of a formula, in at most `fuel` steps one inside the other.
pub open spec fn formula_value(s: Seq<char>, c: CtxModel, fuel: nat) -> Res<Seq<char>>
    decreases fuel, 0nat,
{
    let expr = text::drop_leading(text::trim(s), '=');
    if fuel == 0 {
        Outcome::Exhausted
    } else if pattern::first_match(
        structured::STRUCTURED_PATTERN@,
        deps::literals_blanked(expr),
    ) is Some {
        Outcome::Fail("unsupported_formula: structured table references are not yet evaluated"@)
    } else {
        match ranges::ref_cell(expr, c.sheet) {
            Some(k) => Outcome::Value(ranges::value_at(c.cells, k)),
            None => match staged(formula_stages(), expr, c, (fuel - 1) as nat) {
                Outcome::Value(e) => settled(c, e),
                other => other,
            },
        }
    }
}

/// An expression after the calls of each stage have been replaced in turn.
pub open spec fn staged(stages: Seq<Func>, expr: Seq<char>, c: CtxModel, fuel: nat) -> Res<Seq<char>>
    decreases fuel, stages.len(),
{
    if stages.len() == 0 {
        Outcome::Value(expr)
    } else if fuel == 0 {
        Outcome::Exhausted
    } else {
        match staged(stages.drop_last(), expr, c, fuel) {
            Outcome::Value(e) => if stages.last() == Func::Amp {
                amp_value(e, c, (fuel - 1) as nat)
            } else {
                calls_value(stages.last(), e, c, (fuel - 1) as nat)
            },
            other => other,
        }
    }
}

/// An expression with the calls of a function replaced by their values, one after the
/// other, until none is left.
pub open spec fn calls_value(f: Func, expr: Seq<char>, c: CtxModel, fuel: nat) -> Res<Seq<char>>
    decreases fuel, 0nat,
{
    if fuel == 0 {
        Outcome::Exhausted
    } else {
        match calls::call_in(expr, func_name(f)) {
            None => Outcome::Value(expr),
            Some(call) => match call_value(
                f,
                calls::parts(calls::call_args(expr, call), ','),
                c,
                (fuel - 1) as nat,
            ) {
                Outcome::Value(t) => calls_value(
                    f,
                    calls::call_replaced(expr, call, t),
                    c,
                    (fuel - 1) as nat,
                ),
                other => other,
            },
        }
    }
}

/// The operands of `&` put together.
pub open spec fn amp_value(expr: Seq<char>, c: CtxModel, fuel: nat) -> Res<Seq<char>>
    decreases fuel, 0nat,
{
    if fuel == 0 {
        Outcome::Exhausted
    } else if calls::operands(expr).len() <= 1 {
        Outcome::Value(expr)
    } else {
        match texts_value(calls::operands(expr), c, (fuel - 1) as nat) {
            Outcome::Value(parts) => Outcome::Value(
                calls::quoted(text::joined(parts, Seq::empty())),
            ),
            other => held(other),
        }
    }
}

/// The value of an argument as text.
pub open spec fn text_value(arg: Seq<char>, c: CtxModel, fuel: nat) -> Res<Seq<char>>
    decreases fuel, 0nat,
{
    let t = text::trim(arg);
    if fuel == 0 {
        Outcome::Exhausted
    } else if calls::is_quoted(t) {
        Outcome::Value(calls::unquoted(t))
    } else {
        match ranges::ref_cell(t, c.sheet) {
            Some(k) => Outcome::Value(ranges::value_at(c.cells, k)),
            None => if text::contains(t, "("@) || looks_numeric(t) {
                formula_value("="@ + t, c, (fuel - 1) as nat)
            } else {
                Outcome::Value(calls::unquoted(t))
            },
        }
    }
}

/// The values of arguments as texts, in turn.
pub open spec fn texts_value(args: Args, c: CtxModel, fuel: nat) -> Res<Args>
    decreases fuel, args.len(),
{
    if args.len() == 0 {
        Outcome::Value(Seq::empty())
    } else if fuel == 0 {
        Outcome::Exhausted
    } else {
        match texts_value(args.drop_last(), c, fuel) {
            Outcome::Value(done) => match text_value(args.last(), c, (fuel - 1) as nat) {
                Outcome::Value(t) => Outcome::Value(done.push(t)),
                other => held(other),
            },
            other => other,
        }
    }
}

/// The value of an argument as a number.
pub open spec fn numeric_value(arg: Seq<char>, c: CtxModel, fuel: nat) -> Res<Seq<char>>
    decreases fuel, 0nat,
{
    if fuel == 0 {
        Outcome::Exhausted
    } else {
        match staged(numeric_stages(), text::trim(arg), c, (fuel - 1) as nat) {
            Outcome::Value(e) => settled_number(c, e),
            other => other,
        }
    }
}

/// The value of an argument as a count.
pub open spec fn counted_value(arg: Seq<char>, c: CtxModel, fuel: nat) -> Res<usize>
    decreases fuel, 1nat,
{
    match numeric_value(arg, c, fuel) {
        Outcome::Value(n) => count_for(c, Arith::Count, seq![n]),
        other => held(other),
    }
}

/// Whether a condition holds.
pub open spec fn condition_value(s: Seq<char>, c: CtxModel, fuel: nat) -> Res<bool>
    decreases fuel, 0nat,
{
    if fuel == 0 {
        Outcome::Exhausted
    } else {
        match condition_sides(s) {
            Some((left, op, right)) => match text_value(left, c, (fuel - 1) as nat) {
                Outcome::Value(a) => match text_value(right, c, (fuel - 1) as nat) {
                    Outcome::Value(b) => compared(c, a, op, b),
                    other => held(other),
                },
                other => held(other),
            },
            None => match numeric_value(s, c, (fuel - 1) as nat) {
                Outcome::Value(n) => flag_for(c, Arith::NonZero, seq![n]),
                other => held(other),
            },
        }
    }
}

/// Whether the conditions hold, in turn.
pub open spec fn conditions_value(args: Args, c: CtxModel, fuel: nat) -> Res<Seq<bool>>
    decreases fuel, args.len(),
{
    if args.len() == 0 {
        Outcome::Value(Seq::empty())
    } else if fuel == 0 {
        Outcome::Exhausted
    } else {
        match conditions_value(args.drop_last(), c, fuel) {
            Outcome::Value(done) => match condition_value(args.last(), c, (fuel - 1) as nat) {
                Outcome::Value(b) => Outcome::Value(done.push(b)),
                other => held(other),
            },
            other => other,
        }
    }
}

/// The value of a call, given its arguments.
pub open spec fn call_value(f: Func, args: Args, c: CtxModel, fuel: nat) -> Res<Seq<char>>
    decreases fuel, 0nat,
{
    if fuel == 0 {
        Outcome::Exhausted
    } else {
        let less = (fuel - 1) as nat;
        match f {
            Func::Iferror => iferror_value(args, c, less),
            Func::If => if_value(args, c, less),
            Func::And => logical_value(f, args, c, less),
            Func::Or => logical_value(f, args, c, less),
            Func::Not => logical_value(f, args, c, less),
            Func::Sumifs => conditional_value(f, args, c),
            Func::Sumif => conditional_value(f, args, c),
            Func::Countifs => conditional_value(f, args, c),
            Func::Countif => conditional_value(f, args, c),
            Func::Vlookup => lookup_value(f, args, c, less),
            Func::Index => lookup_value(f, args, c, less),
            Func::Match => lookup_value(f, args, c, less),
            Func::Sum => aggregate(f, c, args),
            Func::Average => aggregate(f, c, args),
            Func::Max => aggregate(f, c, args),
            Func::Min => aggregate(f, c, args),
            Func::Count => aggregate(f, c, args),
            Func::Counta => aggregate(f, c, args),
            Func::Countblank => aggregate(f, c, args),
            Func::Round => round_value(args, c, less),
            Func::Amp => Outcome::Exhausted,
            _ => text_call_value(f, args, c, less),
        }
    }
}

/// `IFERROR`: the first argument's value, where it fails the second's, where that fails the
/// second's text.
pub open spec fn iferror_value(args: Args, c: CtxModel, fuel: nat) -> Res<Seq<char>>
    decreases fuel, 1nat,
{
    if args.len() != 2 {
        Outcome::Fail("IFERROR expects 2 arguments"@)
    } else {
        match formula_value("="@ + args[0], c, fuel) {
            Outcome::Fail(_) => or_text(formula_value("="@ + args[1], c, fuel), args[1]),
            other => other,
        }
    }
}

pub open spec fn or_text(o: Res<Seq<char>>, arg: Seq<char>) -> Res<Seq<char>> {
    match o {
        Outcome::Fail(_) => Outcome::Value(calls::unquoted(arg)),
        other => other,
    }
}

/// `IF`: the second argument's value where the first holds, else the third's.
pub open spec fn if_value(args: Args, c: CtxModel, fuel: nat) -> Res<Seq<char>>
    decreases fuel, 1nat,
{
    if args.len() != 3 {
        Outcome::Fail("unsupported_formula: IF expects 3 arguments"@)
    } else {
        match condition_value(args[0], c, fuel) {
            Outcome::Value(b) => {
                let chosen = if b {
                    args[1]
                } else {
                    args[2]
                };
                or_text(formula_value("="@ + chosen, c, fuel), chosen)
            },
            other => held(other),
        }
    }
}

/// `AND`, `OR` and `NOT`.
pub open spec fn logical_value(f: Func, args: Args, c: CtxModel, fuel: nat) -> Res<Seq<char>>
    decreases fuel, args.len() + 1,
{
    if f == Func::Not && args.len() != 1 {
        Outcome::Fail("unsupported_formula: NOT expects 1 argument"@)
    } else {
        match conditions_value(args, c, fuel) {
            Outcome::Value(bs) => Outcome::Value(
                truth(
                    match f {
                        Func::And => forall|i: int| 0 <= i < bs.len() ==> #[trigger] bs[i],
                        Func::Or => exists|i: int| 0 <= i < bs.len() && #[trigger] bs[i],
                        _ => !bs[0],
                    },
                ),
            ),
            other => held(other),
        }
    }
}

/// `SUMIFS`, `SUMIF`, `COUNTIFS` and `COUNTIF`.
pub open spec fn conditional_value(f: Func, args: Args, c: CtxModel) -> Res<Seq<char>> {
    let n = args.len() as int;
    match f {
        Func::Sumifs => if n < 3 || n % 2 == 0 {
            Outcome::Fail(
                "unsupported_formula: SUMIFS expects sum_range plus range/criteria pairs"@,
            )
        } else {
            let sums = ranges::values_in(args[0], c.sheet, c.cells);
            total(c, met_values(c, args, 1, (n - 1) / 2, sums, sums.len() as int))
        },
        Func::Sumif => if n != 2 && n != 3 {
            Outcome::Fail("unsupported_formula: SUMIF expects 2 or 3 arguments"@)
        } else {
            let first = ranges::values_in(args[0], c.sheet, c.cells);
            let sums = if n == 3 {
                ranges::values_in(args[2], c.sheet, c.cells)
            } else {
                first
            };
            total(c, met_values(c, args, 0, 1, sums, first.len() as int))
        },
        Func::Countifs => if n < 2 || n % 2 != 0 {
            Outcome::Fail("COUNTIFS expects range/criteria pairs"@)
        } else {
            let first = ranges::values_in(args[0], c.sheet, c.cells);
            count(met_values(c, args, 0, n / 2, first, first.len() as int))
        },
        _ => if n != 2 {
            Outcome::Fail("COUNTIF expects 2 arguments"@)
        } else {
            let first = ranges::values_in(args[0], c.sheet, c.cells);
            count(met_values(c, args, 0, 1, first, first.len() as int))
        },
    }
}

pub open spec fn total(c: CtxModel, o: Res<Args>) -> Res<Seq<char>> {
    match o {
        Outcome::Value(values) => number_for(c, Arith::Total, values),
        other => held(other),
    }
}

pub open spec fn count(o: Res<Args>) -> Res<Seq<char>> {
    match o {
        Outcome::Value(values) => Outcome::Value(text::decimal(values.len())),
        other => held(other),
    }
}

/// Whether the last argument of `VLOOKUP` asks for an exact match.
pub open spec fn exact(arg: Seq<char>) -> bool {
    text::upper(text::trim(arg)) == "FALSE"@ || text::upper(text::trim(arg)) == "0"@
}

/// `VLOOKUP`, `INDEX` and `MATCH`.
pub open spec fn lookup_value(f: Func, args: Args, c: CtxModel, fuel: nat) -> Res<Seq<char>>
    decreases fuel, 2nat,
{
    let n = args.len();
    match f {
        Func::Vlookup => if n < 3 || n > 4 {
            Outcome::Fail("unsupported_formula: VLOOKUP expects 3 or 4 arguments"@)
        } else if n == 4 && !exact(args[3]) {
            Outcome::Fail("unsupported_formula: VLOOKUP approximate match is not supported"@)
        } else {
            match text_value(args[0], c, fuel) {
                Outcome::Value(x) => match counted_value(args[2], c, fuel) {
                    Outcome::Value(col) => match looked_up(
                        ranges::rows_in(args[1], c.sheet, c.cells),
                        x,
                        col,
                    ) {
                        Some(t) => Outcome::Value(calls::quoted(t)),
                        None => Outcome::Fail(
                            "unsupported_formula: VLOOKUP exact match not found"@,
                        ),
                    },
                    other => held(other),
                },
                other => other,
            }
        },
        Func::Index => if n < 2 || n > 3 {
            Outcome::Fail("unsupported_formula: INDEX expects 2 or 3 arguments"@)
        } else {
            match counted_value(args[1], c, fuel) {
                Outcome::Value(row) => match (if n == 3 {
                    counted_value(args[2], c, fuel)
                } else {
                    Outcome::Value(1usize)
                }) {
                    Outcome::Value(col) => Outcome::Value(
                        calls::quoted(
                            indexed(ranges::rows_in(args[0], c.sheet, c.cells), row, col),
                        ),
                    ),
                    other => held(other),
                },
                other => held(other),
            }
        },
        _ => if n < 2 || n > 3 {
            Outcome::Fail("unsupported_formula: MATCH expects 2 or 3 arguments"@)
        } else if n == 3 && text::trim(args[2]) != "0"@ {
            Outcome::Fail("unsupported_formula: MATCH approximate match is not supported"@)
        } else {
            match text_value(args[0], c, fuel) {
                Outcome::Value(x) => match match_place(
                    ranges::values_in(args[1], c.sheet, c.cells),
                    x,
                ) {
                    Some(p) => Outcome::Value(text::decimal(p)),
                    None => Outcome::Fail("unsupported_formula: MATCH exact value not found"@),
                },
                other => other,
            }
        },
    }
}

pub open spec fn round_value(args: Args, c: CtxModel, fuel: nat) -> Res<Seq<char>>
    decreases fuel, 1nat,
{
    if args.len() != 2 {
        Outcome::Fail("ROUND expects 2 arguments"@)
    } else {
        match numeric_value(args[0], c, fuel) {
            Outcome::Value(x) => match numeric_value(args[1], c, fuel) {
                Outcome::Value(d) => number_for(c, Arith::Round, seq![x, d]),
                other => other,
            },
            other => other,
        }
    }
}

/// How many arguments a function on text takes; `None` for those with a list of them.
pub open spec fn text_arity(f: Func) -> Option<nat> {
    match f {
        Func::Len => Some(1),
        Func::Trim => Some(1),
        Func::Left => Some(2),
        Func::Right => Some(2),
        Func::Mid => Some(3),
        Func::Value => Some(1),
        Func::Text => Some(2),
        _ => None,
    }
}

pub open spec fn arity_error(f: Func) -> Seq<char> {
    match f {
        Func::Len => "unsupported_formula: LEN expects 1 argument"@,
        Func::Trim => "unsupported_formula: TRIM expects 1 argument"@,
        Func::Left => "unsupported_formula: LEFT expects 2 arguments"@,
        Func::Right => "unsupported_formula: RIGHT expects 2 arguments"@,
        Func::Mid => "unsupported_formula: MID expects 3 arguments"@,
        Func::Value => "unsupported_formula: VALUE expects 1 argument"@,
        _ => "unsupported_formula: TEXT expects 2 arguments"@,
    }
}

pub open spec fn first_chars(s: Seq<char>, n: usize) -> Seq<char> {
    if n < s.len() {
        s.subrange(0, n as int)
    } else {
        s
    }
}

pub open spec fn last_chars(s: Seq<char>, n: usize) -> Seq<char> {
    if n < s.len() {
        s.subrange(s.len() - n, s.len() as int)
    } else {
        s
    }
}

pub open spec fn mid_chars(s: Seq<char>, start: usize, n: usize) -> Seq<char> {
    if one_less(start) >= s.len() {
        Seq::empty()
    } else {
        first_chars(s.subrange(one_less(start), s.len() as int), n)
    }
}

/// The functions on text.
pub open spec fn text_call_value(f: Func, args: Args, c: CtxModel, fuel: nat) -> Res<Seq<char>>
    decreases fuel, args.len() + 2,
{
    match text_arity(f) {
        Some(n) => if args.len() != n {
            Outcome::Fail(arity_error(f))
        } else if f == Func::Text {
            match numeric_value(args[0], c, fuel) {
                Outcome::Value(x) => match text_value(args[1], c, fuel) {
                    Outcome::Value(code) => match formatted(c, x, code) {
                        Outcome::Value(t) => Outcome::Value(calls::quoted(t)),
                        other => other,
                    },
                    other => other,
                },
                other => other,
            }
        } else {
            match text_value(args[0], c, fuel) {
                Outcome::Value(t) => match f {
                    Func::Len => Outcome::Value(text::decimal(t.len())),
                    Func::Trim => Outcome::Value(calls::quoted(text::trim(t))),
                    Func::Left => match counted_value(args[1], c, fuel) {
                        Outcome::Value(k) => Outcome::Value(calls::quoted(first_chars(t, k))),
                        other => held(other),
                    },
                    Func::Right => match counted_value(args[1], c, fuel) {
                        Outcome::Value(k) => Outcome::Value(calls::quoted(last_chars(t, k))),
                        other => held(other),
                    },
                    Func::Mid => match counted_value(args[1], c, fuel) {
                        Outcome::Value(k) => match counted_value(args[2], c, fuel) {
                            Outcome::Value(m) => Outcome::Value(
                                calls::quoted(mid_chars(t, k, m)),
                            ),
                            other => held(other),
                        },
                        other => held(other),
                    },
                    _ => if numbers::is_number(t) {
                        number_for(c, Arith::Format, seq![t])
                    } else {
                        Outcome::Fail("unsupported_formula: VALUE argument is not numeric"@)
                    },
                },
                other => other,
            }
        },
        None => if f == Func::Concat {
            match texts_value(args, c, fuel) {
                Outcome::Value(parts) => Outcome::Value(
                    calls::quoted(text::joined(parts, Seq::empty())),
                ),
                other => held(other),
            }
        } else if args.len() < 3 {
            Outcome::Fail(
                "unsupported_formula: TEXTJOIN expects delimiter, ignore_empty, and values"@,
            )
        } else {
            match text_value(args[0], c, fuel) {
                Outcome::Value(sep) => match texts_value(
                    args.subrange(2, args.len() as int),
                    c,
                    fuel,
                ) {
                    Outcome::Value(parts) => Outcome::Value(
                        calls::quoted(
                            text::joined(
                                if text::like(text::trim(args[1]), "TRUE"@) {
                                    text::nonempty(parts)
                                } else {
                                    parts
                                },
                                sep,
                            ),
                        ),
                    ),
                    other => held(other),
                },
                other => other,
            }
        },
    }
}

fn equals_text(arg: &str) -> (r: String)
    ensures
        r@ == "="@ + arg@,
{
    let mut out = "=".to_owned();
    out.append(arg);
    out
}

/// Evaluates a formula of a cell on the sheet of the context.
pub fn evaluate_formula_mvp(formula: &str, c: &Ctx, fuel: usize) -> (r: Outcome<String>)
    ensures
        r.deep_view() == formula_value(formula@, c.deep_view(), fuel as nat),
    decreases fuel, 0nat,
{
    if fuel == 0 {
        return Outcome::Exhausted;
    }
    let expr = text::without_leading(&text::trimmed(formula), '=');
    if structured::has_structured_table_ref(&deps::strip_formula_string_literals(&expr)) {
        return Outcome::Fail(
            "unsupported_formula: structured table references are not yet evaluated".to_owned(),
        );
    }
    match ranges::parse_ref(&expr, c.sheet) {
        Some(k) => return Outcome::Value(ranges::cell_value(c.cells, &k)),
        None => {},
    }
    let stages = formula_stages_list();
    assert(stages@.take(stages@.len() as int) == formula_stages());
    match eval_stages(&stages, stages.len(), &expr, c, fuel - 1) {
        Outcome::Value(e) => settle(c, &e),
        other => other,
    }
}

/// Replaces the calls of the first `n` stages in turn.
fn eval_stages(stages: &Vec<Func>, n: usize, expr: &str, c: &Ctx, fuel: usize) -> (r: Outcome<
    String,
>)
    requires
        n <= stages.len(),
    ensures
        r.deep_view() == staged(stages@.take(n as int), expr@, c.deep_view(), fuel as nat),
    decreases fuel, n,
{
    if n == 0 {
        return Outcome::Value(expr.to_owned());
    }
    if fuel == 0 {
        return Outcome::Exhausted;
    }
    assert(stages@.take(n as int).drop_last() == stages@.take(n - 1));
    match eval_stages(stages, n - 1, expr, c, fuel) {
        Outcome::Value(e) => {
            let f = stages[n - 1];
            if f == Func::Amp {
                eval_concat_operator(&e, c, fuel - 1)
            } else {
                eval_function_calls(f, &e, c, fuel - 1)
            }
        },
        other => other,
    }
}

/// Replaces the calls of one function.
pub fn eval_function_calls(f: Func, expr: &str, c: &Ctx, fuel: usize) -> (r: Outcome<String>)
    ensures
        r.deep_view() == calls_value(f, expr@, c.deep_view(), fuel as nat),
    decreases fuel, 0nat,
{
    let mut current = expr.to_owned();
    let mut left: usize = fuel;
    while left > 0
        invariant
            left <= fuel,
            calls_value(f, expr@, c.deep_view(), fuel as nat) == calls_value(
                f,
                current@,
                c.deep_view(),
                left as nat,
            ),
        decreases left,
    {
        let chars = text::chars_of(&current);
        let call = match calls::find_function_call(&chars, name_of(f)) {
            Some(call) => call,
            None => return Outcome::Value(current),
        };
        let args = calls::split_args(&text::piece(&chars, call.open + 1, call.end - 1));
        match eval_call(f, &args, c, left - 1) {
            Outcome::Value(t) => {
                current = calls::replace_call(&chars, &call, &t);
            },
            other => return other,
        }
        left = left - 1;
    }
    Outcome::Exhausted
}

/// Puts the operands of `&` together.
pub fn eval_concat_operator(expr: &str, c: &Ctx, fuel: usize) -> (r: Outcome<String>)
    ensures
        r.deep_view() == amp_value(expr@, c.deep_view(), fuel as nat),
    decreases fuel, 0nat,
{
    if fuel == 0 {
        return Outcome::Exhausted;
    }
    let parts = calls::split_concat_parts(expr);
    assert(parts.deep_view().len() == parts.len());
    if parts.len() <= 1 {
        return Outcome::Value(expr.to_owned());
    }
    assert(parts.deep_view().subrange(0, parts.len() as int) == parts.deep_view());
    match eval_texts(&parts, 0, c, fuel - 1) {
        Outcome::Value(texts) => Outcome::Value(join_quoted(&texts)),
        other => hold(other),
    }
}

fn join_quoted(texts: &Vec<String>) -> (r: String)
    ensures
        r@ == calls::quoted(text::joined(texts.deep_view(), Seq::empty())),
{
    let none = String::new();
    calls::quote(&text::join(texts, &none))
}

pub fn evaluate_text_arg(arg: &str, c: &Ctx, fuel: usize) -> (r: Outcome<String>)
    ensures
        r.deep_view() == text_value(arg@, c.deep_view(), fuel as nat),
    decreases fuel, 0nat,
{
    if fuel == 0 {
        return Outcome::Exhausted;
    }
    let t = text::trimmed(arg);
    if calls::in_quotes(&t) {
        return Outcome::Value(calls::strip_quotes(&t));
    }
    match ranges::parse_ref(&t, c.sheet) {
        Some(k) => return Outcome::Value(ranges::cell_value(c.cells, &k)),
        None => {},
    }
    if text::has(&t, "(") || looks_like_numeric_expression(&t) {
        evaluate_formula_mvp(&equals_text(&t), c, fuel - 1)
    } else {
        Outcome::Value(calls::strip_quotes(&t))
    }
}

proof fn lemma_texts_held(args: Args, i: int, c: CtxModel, fuel: nat)
    requires
        0 < i <= args.len(),
        fuel > 0,
        !(texts_value(args.take(i), c, fuel) is Value),
    ensures
        texts_value(args, c, fuel) == texts_value(args.take(i), c, fuel),
    decreases args.len() - i,
{
    if i < args.len() {
        assert(args.take(i + 1).drop_last() == args.take(i));
        lemma_texts_held(args, i + 1, c, fuel);
    } else {
        assert(args.take(i) == args);
    }
}

/// The values of the arguments from `from` on as texts.
fn eval_texts(args: &Vec<String>, from: usize, c: &Ctx, fuel: usize) -> (r: Outcome<Vec<String>>)
    requires
        from <= args.len(),
    ensures
        r.deep_view() == texts_value(
            args.deep_view().subrange(from as int, args.len() as int),
            c.deep_view(),
            fuel as nat,
        ),
    decreases fuel, 1nat,
{
    let ghost all = args.deep_view().subrange(from as int, args.len() as int);
    let ghost m = c.deep_view();
    let mut out: Vec<String> = Vec::new();
    assert(out.deep_view() == Seq::<Seq<char>>::empty());
    if from == args.len() {
        return Outcome::Value(out);
    }
    if fuel == 0 {
        return Outcome::Exhausted;
    }
    let mut i: usize = from;
    while i < args.len()
        invariant
            from <= i <= args.len(),
            fuel > 0,
            all == args.deep_view().subrange(from as int, args.len() as int),
            m == c.deep_view(),
            texts_value(all.take(i - from), m, fuel as nat) == Res::<Args>::Value(
                out.deep_view(),
            ),
        decreases args.len() - i,
    {
        assert(all.take(i - from + 1).drop_last() == all.take(i - from));
        assert(all.take(i - from + 1).last() == args@[i as int]@);
        match evaluate_text_arg(&args[i], c, fuel - 1) {
            Outcome::Value(t) => {
                let ghost done = out.deep_view();
                out.push(t);
                assert(out.deep_view() == done.push(t@));
            },
            other => {
                proof {
                    lemma_texts_held(all, i - from + 1, m, fuel as nat);
                }
                return hold(other);
            },
        }
        i = i + 1;
    }
    assert(all.take(all.len() as int) == all);
    Outcome::Value(out)
}

pub fn evaluate_numeric_arg(arg: &str, c: &Ctx, fuel: usize) -> (r: Outcome<String>)
    ensures
        r.deep_view() == numeric_value(arg@, c.deep_view(), fuel as nat),
    decreases fuel, 0nat,
{
    if fuel == 0 {
        return Outcome::Exhausted;
    }
    let stages = numeric_stages_list();
    assert(stages@.take(stages@.len() as int) == numeric_stages());
    match eval_stages(&stages, stages.len(), &text::trimmed(arg), c, fuel - 1) {
        Outcome::Value(e) => settle_number(c, &e),
        other => other,
    }
}

fn eval_count(arg: &str, c: &Ctx, fuel: usize) -> (r: Outcome<usize>)
    ensures
        r.deep_view() == counted_value(arg@, c.deep_view(), fuel as nat),
    decreases fuel, 1nat,
{
    match evaluate_numeric_arg(arg, c, fuel) {
        Outcome::Value(n) => ask_count(c, Arith::Count, one(&n)),
        other => hold(other),
    }
}

pub fn evaluate_condition(condition: &str, c: &Ctx, fuel: usize) -> (r: Outcome<bool>)
    ensures
        r.deep_view() == condition_value(condition@, c.deep_view(), fuel as nat),
    decreases fuel, 0nat,
{
    if fuel == 0 {
        return Outcome::Exhausted;
    }
    match split_condition(condition) {
        Some((left, op, right)) => {
            let a = match evaluate_text_arg(&left, c, fuel - 1) {
                Outcome::Value(a) => a,
                other => return hold(other),
            };
            let b = match evaluate_text_arg(&right, c, fuel - 1) {
                Outcome::Value(b) => b,
                other => return hold(other),
            };
            compare_criteria(c, &a, &op, &b)
        },
        None => match evaluate_numeric_arg(condition, c, fuel - 1) {
            Outcome::Value(n) => ask_flag(c, Arith::NonZero, one(&n)),
            other => hold(other),
        },
    }
}

proof fn lemma_conditions_held(args: Args, i: int, c: CtxModel, fuel: nat)
    requires
        0 < i <= args.len(),
        fuel > 0,
        !(conditions_value(args.take(i), c, fuel) is Value),
    ensures
        conditions_value(args, c, fuel) == conditions_value(args.take(i), c, fuel),
    decreases args.len() - i,
{
    if i < args.len() {
        assert(args.take(i + 1).drop_last() == args.take(i));
        lemma_conditions_held(args, i + 1, c, fuel);
    } else {
        assert(args.take(i) == args);
    }
}

fn eval_conditions(args: &Vec<String>, c: &Ctx, fuel: usize) -> (r: Outcome<Vec<bool>>)
    ensures
        r.deep_view() == conditions_value(args.deep_view(), c.deep_view(), fuel as nat),
    decreases fuel, 1nat,
{
    let ghost all = args.deep_view();
    let ghost m = c.deep_view();
    let mut out: Vec<bool> = Vec::new();
    assert(out.deep_view() == Seq::<bool>::empty());
    if args.len() == 0 {
        return Outcome::Value(out);
    }
    if fuel == 0 {
        return Outcome::Exhausted;
    }
    let mut i: usize = 0;
    while i < args.len()
        invariant
            i <= args.len(),
            fuel > 0,
            all == args.deep_view(),
            m == c.deep_view(),
            conditions_value(all.take(i as int), m, fuel as nat) == Res::<Seq<bool>>::Value(
                out.deep_view(),
            ),
        decreases args.len() - i,
    {
        assert(all.take(i + 1).drop_last() == all.take(i as int));
        assert(all.take(i + 1).last() == args@[i as int]@);
        match evaluate_condition(&args[i], c, fuel - 1) {
            Outcome::Value(b) => {
                let ghost done = out.deep_view();
                out.push(b);
                assert(out.deep_view() == done.push(b));
            },
            other => {
                proof {
                    lemma_conditions_held(all, i + 1, m, fuel as nat);
                }
                return hold(other);
            },
        }
        i = i + 1;
    }
    assert(all.take(all.len() as int) == all);
    Outcome::Value(out)
}

/// Evaluates a call, given its arguments.
pub fn eval_call(f: Func, args: &Vec<String>, c: &Ctx, fuel: usize) -> (r: Outcome<String>)
    requires
        args.len() > 0,
    ensures
        r.deep_view() == call_value(f, args.deep_view(), c.deep_view(), fuel as nat),
    decreases fuel, 0nat,
{
    if fuel == 0 {
        return Outcome::Exhausted;
    }
    match f {
        Func::Iferror => eval_iferror(args, c, fuel - 1),
        Func::If => eval_if(args, c, fuel - 1),
        Func::And => eval_logical(f, args, c, fuel - 1),
        Func::Or => eval_logical(f, args, c, fuel - 1),
        Func::Not => eval_logical(f, args, c, fuel - 1),
        Func::Sumifs => eval_conditional(f, args, c),
        Func::Sumif => eval_conditional(f, args, c),
        Func::Countifs => eval_conditional(f, args, c),
        Func::Countif => eval_conditional(f, args, c),
        Func::Vlookup => eval_vlookup(args, c, fuel - 1),
        Func::Index => eval_index(args, c, fuel - 1),
        Func::Match => eval_match(args, c, fuel - 1),
        Func::Sum => eval_aggregate(f, c, args),
        Func::Average => eval_aggregate(f, c, args),
        Func::Max => eval_aggregate(f, c, args),
        Func::Min => eval_aggregate(f, c, args),
        Func::Count => eval_aggregate(f, c, args),
        Func::Counta => eval_aggregate(f, c, args),
        Func::Countblank => eval_aggregate(f, c, args),
        Func::Round => eval_round(args, c, fuel - 1),
        Func::Amp => Outcome::Exhausted,
        _ => eval_text_call(f, args, c, fuel - 1),
    }
}

fn eval_iferror(args: &Vec<String>, c: &Ctx, fuel: usize) -> (r: Outcome<String>)
    ensures
        r.deep_view() == iferror_value(args.deep_view(), c.deep_view(), fuel as nat),
    decreases fuel, 1nat,
{
    assert(args.deep_view().len() == args.len());
    if args.len() != 2 {
        return Outcome::Fail("IFERROR expects 2 arguments".to_owned());
    }
    assert(args.deep_view()[0] == args@[0]@ && args.deep_view()[1] == args@[1]@);
    match evaluate_formula_mvp(&equals_text(&args[0]), c, fuel) {
        Outcome::Fail(_) => text_if_failed(
            evaluate_formula_mvp(&equals_text(&args[1]), c, fuel),
            &args[1],
        ),
        other => other,
    }
}

fn text_if_failed(o: Outcome<String>, arg: &str) -> (r: Outcome<String>)
    ensures
        r.deep_view() == or_text(o.deep_view(), arg@),
{
    match o {
        Outcome::Fail(_) => Outcome::Value(calls::strip_quotes(arg)),
        other => other,
    }
}

fn eval_if(args: &Vec<String>, c: &Ctx, fuel: usize) -> (r: Outcome<String>)
    ensures
        r.deep_view() == if_value(args.deep_view(), c.deep_view(), fuel as nat),
    decreases fuel, 1nat,
{
    assert(args.deep_view().len() == args.len());
    if args.len() != 3 {
        return Outcome::Fail("unsupported_formula: IF expects 3 arguments".to_owned());
    }
    assert(args.deep_view()[0] == args@[0]@ && args.deep_view()[1] == args@[1]@
        && args.deep_view()[2] == args@[2]@);
    let chosen = match evaluate_condition(&args[0], c, fuel) {
        Outcome::Value(b) => if b {
            &args[1]
        } else {
            &args[2]
        },
        other => return hold(other),
    };
    text_if_failed(evaluate_formula_mvp(&equals_text(chosen), c, fuel), chosen)
}

fn every(v: &Vec<bool>) -> (r: bool)
    ensures
        r == (forall|i: int| 0 <= i < v.deep_view().len() ==> #[trigger] v.deep_view()[i]),
{
    let mut i: usize = 0;
    while i < v.len()
        invariant
            i <= v.len(),
            forall|k: int| 0 <= k < i ==> #[trigger] v.deep_view()[k],
        decreases v.len() - i,
    {
        if !v[i] {
            assert(!v.deep_view()[i as int]);
            return false;
        }
        i = i + 1;
    }
    true
}

fn some(v: &Vec<bool>) -> (r: bool)
    ensures
        r == (exists|i: int| 0 <= i < v.deep_view().len() && #[trigger] v.deep_view()[i]),
{
    let mut i: usize = 0;
    while i < v.len()
        invariant
            i <= v.len(),
            forall|k: int| 0 <= k < i ==> !#[trigger] v.deep_view()[k],
        decreases v.len() - i,
    {
        if v[i] {
            assert(v.deep_view()[i as int]);
            return true;
        }
        i = i + 1;
    }
    false
}

proof fn lemma_conditions_len(args: Args, c: CtxModel, fuel: nat)
    ensures
        conditions_value(args, c, fuel) matches Outcome::Value(bs) ==> bs.len() == args.len(),
    decreases args.len(),
{
    if args.len() > 0 {
        lemma_conditions_len(args.drop_last(), c, fuel);
    }
}

fn eval_logical(f: Func, args: &Vec<String>, c: &Ctx, fuel: usize) -> (r: Outcome<String>)
    requires
        args.len() > 0,
    ensures
        r.deep_view() == logical_value(f, args.deep_view(), c.deep_view(), fuel as nat),
    decreases fuel, 2nat,
{
    assert(args.deep_view().len() == args.len());
    if f == Func::Not && args.len() != 1 {
        return Outcome::Fail("unsupported_formula: NOT expects 1 argument".to_owned());
    }
    proof {
        lemma_conditions_len(args.deep_view(), c.deep_view(), fuel as nat);
    }
    match eval_conditions(args, c, fuel) {
        Outcome::Value(bs) => {
            assert(bs.deep_view().len() == bs.len());
            assert(bs.deep_view()[0] == bs@[0]);
            Outcome::Value(
                truth_text(
                    match f {
                        Func::And => every(&bs),
                        Func::Or => some(&bs),
                        _ => !bs[0],
                    },
                ),
            )
        },
        other => hold(other),
    }
}

fn total_of(c: &Ctx, o: Outcome<Vec<String>>) -> (r: Outcome<String>)
    ensures
        r.deep_view() == total(c.deep_view(), o.deep_view()),
{
    match o {
        Outcome::Value(values) => ask_number(c, Arith::Total, values),
        other => hold(other),
    }
}

fn count_of(o: Outcome<Vec<String>>) -> (r: Outcome<String>)
    ensures
        r.deep_view() == count(o.deep_view()),
{
    match o {
        Outcome::Value(values) => {
            assert(values.deep_view().len() == values.len());
            Outcome::Value(text::size_text(values.len()))
        },
        other => hold(other),
    }
}

/// Evaluates the sums and counts under conditions.
pub fn eval_conditional(f: Func, args: &Vec<String>, c: &Ctx) -> (r: Outcome<String>)
    ensures
        r.deep_view() == conditional_value(f, args.deep_view(), c.deep_view()),
{
    let n = args.len();
    assert(args.deep_view().len() == n);
    assert(n > 0 ==> args.deep_view()[0] == args@[0]@);
    match f {
        Func::Sumifs => {
            if n < 3 || n % 2 == 0 {
                return Outcome::Fail(
                    "unsupported_formula: SUMIFS expects sum_range plus range/criteria pairs".to_owned(),
                );
            }
            let sums = ranges::range_values(&args[0], c.sheet, c.cells);
            assert(sums.deep_view().len() == sums.len());
            total_of(c, values_met(c, args, 1, (n - 1) / 2, &sums, sums.len()))
        },
        Func::Sumif => {
            if n != 2 && n != 3 {
                return Outcome::Fail(
                    "unsupported_formula: SUMIF expects 2 or 3 arguments".to_owned(),
                );
            }
            let first = ranges::range_values(&args[0], c.sheet, c.cells);
            assert(first.deep_view().len() == first.len());
            if n == 3 {
                assert(args.deep_view()[2] == args@[2]@);
                let sums = ranges::range_values(&args[2], c.sheet, c.cells);
                total_of(c, values_met(c, args, 0, 1, &sums, first.len()))
            } else {
                total_of(c, values_met(c, args, 0, 1, &first, first.len()))
            }
        },
        Func::Countifs => {
            if n < 2 || n % 2 != 0 {
                return Outcome::Fail("COUNTIFS expects range/criteria pairs".to_owned());
            }
            let first = ranges::range_values(&args[0], c.sheet, c.cells);
            assert(first.deep_view().len() == first.len());
            count_of(values_met(c, args, 0, n / 2, &first, first.len()))
        },
        _ => {
            if n != 2 {
                return Outcome::Fail("COUNTIF expects 2 arguments".to_owned());
            }
            let first = ranges::range_values(&args[0], c.sheet, c.cells);
            assert(first.deep_view().len() == first.len());
            count_of(values_met(c, args, 0, 1, &first, first.len()))
        },
    }
}

fn eval_vlookup(args: &Vec<String>, c: &Ctx, fuel: usize) -> (r: Outcome<String>)
    ensures
        r.deep_view() == lookup_value(
            Func::Vlookup,
            args.deep_view(),
            c.deep_view(),
            fuel as nat,
        ),
    decreases fuel, 2nat,
{
    let n = args.len();
    let ghost a = args.deep_view();
    assert(a.len() == n);
    if n < 3 || n > 4 {
        return Outcome::Fail("unsupported_formula: VLOOKUP expects 3 or 4 arguments".to_owned());
    }
    assert(a[0] == args@[0]@ && a[1] == args@[1]@ && a[2] == args@[2]@);
    if n == 4 {
        assert(a[3] == args@[3]@);
        let mode = text::to_upper(&text::trimmed(&args[3]));
        if !text::same(&mode, "FALSE") && !text::same(&mode, "0") {
            return Outcome::Fail(
                "unsupported_formula: VLOOKUP approximate match is not supported".to_owned(),
            );
        }
    }
    let x = match evaluate_text_arg(&args[0], c, fuel) {
        Outcome::Value(x) => x,
        other => return other,
    };
    let col = match eval_count(&args[2], c, fuel) {
        Outcome::Value(col) => col,
        other => return hold(other),
    };
    let rows = ranges::range_rows(&args[1], c.sheet, c.cells);
    match lookup_in_rows(&rows, &x, col) {
        Some(t) => Outcome::Value(calls::quote(&t)),
        None => Outcome::Fail("unsupported_formula: VLOOKUP exact match not found".to_owned()),
    }
}

fn eval_index(args: &Vec<String>, c: &Ctx, fuel: usize) -> (r: Outcome<String>)
    ensures
        r.deep_view() == lookup_value(Func::Index, args.deep_view(), c.deep_view(), fuel as nat),
    decreases fuel, 2nat,
{
    let n = args.len();
    let ghost a = args.deep_view();
    assert(a.len() == n);
    if n < 2 || n > 3 {
        return Outcome::Fail("unsupported_formula: INDEX expects 2 or 3 arguments".to_owned());
    }
    assert(a[0] == args@[0]@ && a[1] == args@[1]@);
    let row = match eval_count(&args[1], c, fuel) {
        Outcome::Value(row) => row,
        other => return hold(other),
    };
    let col = if n == 3 {
        assert(a[2] == args@[2]@);
        match eval_count(&args[2], c, fuel) {
            Outcome::Value(col) => col,
            other => return hold(other),
        }
    } else {
        1
    };
    let rows = ranges::range_rows(&args[0], c.sheet, c.cells);
    Outcome::Value(calls::quote(&index_in_rows(&rows, row, col)))
}

fn eval_match(args: &Vec<String>, c: &Ctx, fuel: usize) -> (r: Outcome<String>)
    ensures
        r.deep_view() == lookup_value(Func::Match, args.deep_view(), c.deep_view(), fuel as nat),
    decreases fuel, 2nat,
{
    let n = args.len();
    let ghost a = args.deep_view();
    assert(a.len() == n);
    if n < 2 || n > 3 {
        return Outcome::Fail("unsupported_formula: MATCH expects 2 or 3 arguments".to_owned());
    }
    assert(a[0] == args@[0]@ && a[1] == args@[1]@);
    if n == 3 {
        assert(a[2] == args@[2]@);
        if !text::same(&text::trimmed(&args[2]), "0") {
            return Outcome::Fail(
                "unsupported_formula: MATCH approximate match is not supported".to_owned(),
            );
        }
    }
    let x = match evaluate_text_arg(&args[0], c, fuel) {
        Outcome::Value(x) => x,
        other => return other,
    };
    let values = ranges::range_values(&args[1], c.sheet, c.cells);
    match match_in_values(&values, &x) {
        Some(t) => Outcome::Value(t),
        None => Outcome::Fail("unsupported_formula: MATCH exact value not found".to_owned()),
    }
}

fn eval_round(args: &Vec<String>, c: &Ctx, fuel: usize) -> (r: Outcome<String>)
    ensures
        r.deep_view() == round_value(args.deep_view(), c.deep_view(), fuel as nat),
    decreases fuel, 1nat,
{
    assert(args.deep_view().len() == args.len());
    if args.len() != 2 {
        return Outcome::Fail("ROUND expects 2 arguments".to_owned());
    }
    assert(args.deep_view()[0] == args@[0]@ && args.deep_view()[1] == args@[1]@);
    let x = match evaluate_numeric_arg(&args[0], c, fuel) {
        Outcome::Value(x) => x,
        other => return other,
    };
    let d = match evaluate_numeric_arg(&args[1], c, fuel) {
        Outcome::Value(d) => d,
        other => return other,
    };
    ask_number(c, Arith::Round, two(&x, &d))
}

fn arity_of(f: Func) -> (r: Option<usize>)
    ensures
        (match r {
            Some(n) => Some(n as nat),
            None => None,
        }) == text_arity(f),
{
    match f {
        Func::Len => Some(1),
        Func::Trim => Some(1),
        Func::Left => Some(2),
        Func::Right => Some(2),
        Func::Mid => Some(3),
        Func::Value => Some(1),
        Func::Text => Some(2),
        _ => None,
    }
}

fn arity_error_of(f: Func) -> (r: String)
    ensures
        r@ == arity_error(f),
{
    match f {
        Func::Len => "unsupported_formula: LEN expects 1 argument".to_owned(),
        Func::Trim => "unsupported_formula: TRIM expects 1 argument".to_owned(),
        Func::Left => "unsupported_formula: LEFT expects 2 arguments".to_owned(),
        Func::Right => "unsupported_formula: RIGHT expects 2 arguments".to_owned(),
        Func::Mid => "unsupported_formula: MID expects 3 arguments".to_owned(),
        Func::Value => "unsupported_formula: VALUE expects 1 argument".to_owned(),
        _ => "unsupported_formula: TEXT expects 2 arguments".to_owned(),
    }
}

fn take_first(s: &str, n: usize) -> (r: String)
    ensures
        r@ == first_chars(s@, n),
{
    let c = text::chars_of(s);
    if n < c.len() {
        text::piece(&c, 0, n)
    } else {
        s.to_owned()
    }
}

fn take_last(s: &str, n: usize) -> (r: String)
    ensures
        r@ == last_chars(s@, n),
{
    let c = text::chars_of(s);
    if n < c.len() {
        text::piece(&c, c.len() - n, c.len())
    } else {
        s.to_owned()
    }
}

fn take_mid(s: &str, start: usize, n: usize) -> (r: String)
    ensures
        r@ == mid_chars(s@, start, n),
{
    let c = text::chars_of(s);
    let from = if start == 0 { 0 } else { start - 1 };
    if from >= c.len() {
        String::new()
    } else {
        take_first(&text::piece(&c, from, c.len()), n)
    }
}

/// Evaluates a call of a function on text.
pub fn eval_text_call(f: Func, args: &Vec<String>, c: &Ctx, fuel: usize) -> (r: Outcome<String>)
    ensures
        r.deep_view() == text_call_value(f, args.deep_view(), c.deep_view(), fuel as nat),
    decreases fuel, 3nat,
{
    let ghost a = args.deep_view();
    assert(a.len() == args.len());
    match arity_of(f) {
        Some(n) => {
            if args.len() != n {
                return Outcome::Fail(arity_error_of(f));
            }
        },
        None => return eval_joining_call(f, args, c, fuel),
    }
    assert(a[0] == args@[0]@);
    assert(args.len() > 1 ==> a[1] == args@[1]@);
    assert(args.len() > 2 ==> a[2] == args@[2]@);
    if f == Func::Text {
        let x = match evaluate_numeric_arg(&args[0], c, fuel) {
            Outcome::Value(x) => x,
            other => return other,
        };
        let code = match evaluate_text_arg(&args[1], c, fuel) {
            Outcome::Value(code) => code,
            other => return other,
        };
        return match format_text_value(c, &x, &code) {
            Outcome::Value(t) => Outcome::Value(calls::quote(&t)),
            other => other,
        };
    }
    let t = match evaluate_text_arg(&args[0], c, fuel) {
        Outcome::Value(t) => t,
        other => return other,
    };
    match f {
        Func::Len => Outcome::Value(text::size_text(text::chars_of(&t).len())),
        Func::Trim => Outcome::Value(calls::quote(&text::trimmed(&t))),
        Func::Left => match eval_count(&args[1], c, fuel) {
            Outcome::Value(k) => Outcome::Value(calls::quote(&take_first(&t, k))),
            other => hold(other),
        },
        Func::Right => match eval_count(&args[1], c, fuel) {
            Outcome::Value(k) => Outcome::Value(calls::quote(&take_last(&t, k))),
            other => hold(other),
        },
        Func::Mid => {
            let k = match eval_count(&args[1], c, fuel) {
                Outcome::Value(k) => k,
                other => return hold(other),
            };
            match eval_count(&args[2], c, fuel) {
                Outcome::Value(m) => Outcome::Value(calls::quote(&take_mid(&t, k, m))),
                other => hold(other),
            }
        },
        _ => if numbers::number(&t) {
            ask_number(c, Arith::Format, one(&t))
        } else {
            Outcome::Fail("unsupported_formula: VALUE argument is not numeric".to_owned())
        },
    }
}

/// `CONCAT` and `TEXTJOIN`.
fn eval_joining_call(f: Func, args: &Vec<String>, c: &Ctx, fuel: usize) -> (r: Outcome<String>)
    requires
        text_arity(f) is None,
    ensures
        r.deep_view() == text_call_value(f, args.deep_view(), c.deep_view(), fuel as nat),
    decreases fuel, 2nat,
{
    let ghost a = args.deep_view();
    assert(a.len() == args.len());
    if f == Func::Concat {
        assert(a.subrange(0, a.len() as int) == a);
        return match eval_texts(args, 0, c, fuel) {
            Outcome::Value(texts) => Outcome::Value(join_quoted(&texts)),
            other => hold(other),
        };
    }
    if args.len() < 3 {
        return Outcome::Fail(
            "unsupported_formula: TEXTJOIN expects delimiter, ignore_empty, and values".to_owned(),
        );
    }
    assert(a[0] == args@[0]@ && a[1] == args@[1]@);
    let sep = match evaluate_text_arg(&args[0], c, fuel) {
        Outcome::Value(sep) => sep,
        other => return other,
    };
    let texts = match eval_texts(args, 2, c, fuel) {
        Outcome::Value(texts) => texts,
        other => return hold(other),
    };
    if text::eq_nocase(&text::trimmed(&args[1]), "TRUE") {
        Outcome::Value(calls::quote(&text::join(&only_nonempty(&texts), &sep)))
    } else {
        Outcome::Value(calls::quote(&text::join(&texts, &sep)))
    }
}

/// Replaces the calls of the functions on text.
pub fn eval_text_calls(expr: &str, c: &Ctx, fuel: usize) -> (r: Outcome<String>)
    ensures
        r.deep_view() == staged(text_stages(), expr@, c.deep_view(), fuel as nat),
{
    let stages = text_stages_list();
    assert(stages@.take(stages@.len() as int) == text_stages());
    eval_stages(&stages, stages.len(), expr, c, fuel)
}

/// Replaces the lookups.
pub fn eval_lookup_calls(expr: &str, c: &Ctx, fuel: usize) -> (r: Outcome<String>)
    ensures
        r.deep_view() == staged(lookup_stages(), expr@, c.deep_view(), fuel as nat),
{
    let stages = lookup_stages_list();
    assert(stages@.take(stages@.len() as int) == lookup_stages());
    eval_stages(&stages, stages.len(), expr, c, fuel)
}

/// Replaces the functions of truth values.
pub fn eval_logical_calls(expr: &str, c: &Ctx, fuel: usize) -> (r: Outcome<String>)
    ensures
        r.deep_view() == staged(logical_stages(), expr@, c.deep_view(), fuel as nat),
{
    let stages = logical_stages_list();
    assert(stages@.take(stages@.len() as int) == logical_stages());
    eval_stages(&stages, stages.len(), expr, c, fuel)
}

// ----- Numbers that stand for the same -----

/// A text with its number in the shortest form, where it is a number.
pub open spec fn normalized(c: CtxModel, t: Seq<char>) -> Res<Seq<char>> {
    if numbers::is_number(t) {
        match entries::get(c.answers, Ask { op: Arith::Format, args: seq![t] }) {
            Some(Reply::Number(n)) => Outcome::Value(n),
            _ => Outcome::Need(Ask { op: Arith::Format, args: seq![t] }),
        }
    } else {
        Outcome::Value(t)
    }
}

pub fn normalized_number(c: &Ctx, value: &str) -> (r: Outcome<String>)
    ensures
        r.deep_view() == normalized(c.deep_view(), value@),
{
    if numbers::number(value) {
        let ask = Ask { op: Arith::Format, args: one(value) };
        match entries::map_get(c.answers, &ask) {
            Some(Reply::Number(n)) => Outcome::Value(n.clone()),
            _ => Outcome::Need(ask),
        }
    } else {
        Outcome::Value(value.to_owned())
    }
}

/// Whether two values differ by more than the form of a number.
pub open spec fn differ(c: CtxModel, a: Seq<char>, b: Seq<char>) -> Res<bool> {
    match normalized(c, a) {
        Outcome::Value(x) => match normalized(c, b) {
            Outcome::Value(y) => Outcome::Value(x != y),
            other => held(other),
        },
        other => held(other),
    }
}

pub fn values_differ(c: &Ctx, a: &str, b: &str) -> (r: Outcome<bool>)
    ensures
        r.deep_view() == differ(c.deep_view(), a@, b@),
{
    match normalized_number(c, a) {
        Outcome::Value(x) => match normalized_number(c, b) {
            Outcome::Value(y) => Outcome::Value(!text::same(&x, &y)),
            other => hold(other),
        },
        other => hold(other),
    }
}

} // verus!
