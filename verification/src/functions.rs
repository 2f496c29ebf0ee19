//! What the functions of formulas give, told by what their arguments give.

use crate::calls;
use crate::deps::CellsModel;
use crate::entries;
use crate::eval;
use crate::eval::{Arith, Args, Ask, CtxModel, Func, Outcome, Reply, Res};
use crate::numbers;
use crate::ranges;
use crate::text;
use vstd::prelude::*;
use vstd::string::*;

verus! {

pub open spec fn gives<V>(v: V) -> Res<V> {
    Outcome::Value(v)
}

// ----- Choices -----

/// `IF` gives what the argument behind the condition gives where the condition holds, else what
/// the last one gives; the other of the two has no bearing on it.
#[verifier::rlimit(40)]
#[verifier::spinoff_prover]
pub proof fn law_if_goes_by_its_condition(
    condition: Seq<char>,
    yes: Seq<char>,
    no: Seq<char>,
    c: CtxModel,
    fuel: nat,
    b: bool,
    t: Seq<char>,
)
    requires
        eval::condition_value(condition, c, fuel) == gives(b),
        eval::formula_value(
            "="@ + (if b {
                yes
            } else {
                no
            }),
            c,
            fuel,
        ) == gives(t),
    ensures
        eval::call_value(Func::If, seq![condition, yes, no], c, fuel + 1) == gives(t),
{
    let args = seq![condition, yes, no];
    assert(args[0] == condition && args[1] == yes && args[2] == no);
    assert(eval::if_value(args, c, fuel) == gives(t));
    assert((fuel + 1 - 1) as nat == fuel);
}

/// `IFERROR` gives what its first argument gives where that has a value, and what its second
/// one gives where it has none.
#[verifier::rlimit(40)]
#[verifier::spinoff_prover]
pub proof fn law_iferror_falls_back(
    first: Seq<char>,
    second: Seq<char>,
    c: CtxModel,
    fuel: nat,
    t: Seq<char>,
)
    ensures
        eval::formula_value("="@ + first, c, fuel) == gives(t) ==> eval::call_value(
            Func::Iferror,
            seq![first, second],
            c,
            fuel + 1,
        ) == gives(t),
        eval::formula_value("="@ + first, c, fuel) is Fail && eval::formula_value(
            "="@ + second,
            c,
            fuel,
        ) == gives(t) ==> eval::call_value(Func::Iferror, seq![first, second], c, fuel + 1)
            == gives(t),
{
    let args = seq![first, second];
    assert(args[0] == first && args[1] == second);
    assert((fuel + 1 - 1) as nat == fuel);
    assert(eval::iferror_value(args, c, fuel) == eval::call_value(Func::Iferror, args, c, fuel + 1));
}

/// Whether the conditions have the given truth values.
pub open spec fn conditions_are(args: Args, c: CtxModel, fuel: nat, truths: Seq<bool>) -> bool {
    &&& args.len() == truths.len()
    &&& forall|i: int|
        0 <= i < args.len() ==> #[trigger] eval::condition_value(args[i], c, fuel) == gives(
            truths[i],
        )
}

proof fn lemma_conditions(args: Args, c: CtxModel, fuel: nat, truths: Seq<bool>)
    requires
        conditions_are(args, c, fuel, truths),
    ensures
        eval::conditions_value(args, c, fuel + 1) == gives(truths),
    decreases args.len(),
{
    if args.len() > 0 {
        let n = args.len() - 1;
        assert forall|i: int| 0 <= i < args.drop_last().len() implies #[trigger] eval::condition_value(
            args.drop_last()[i],
            c,
            fuel,
        ) == gives(truths.drop_last()[i]) by {
            assert(eval::condition_value(args[i], c, fuel) == gives(truths[i]));
        }
        lemma_conditions(args.drop_last(), c, fuel, truths.drop_last());
        assert(eval::condition_value(args[n], c, fuel) == gives(truths[n]));
        assert(truths.drop_last().push(truths[n]) == truths);
        assert((fuel + 1 - 1) as nat == fuel);
    } else {
        assert(truths == Seq::<bool>::empty());
    }
}

/// `AND` holds where every condition holds, `OR` where one does, and `NOT` where its own does
/// not.
#[verifier::rlimit(40)]
#[verifier::spinoff_prover]
pub proof fn law_logic_goes_by_the_conditions(
    args: Args,
    c: CtxModel,
    fuel: nat,
    truths: Seq<bool>,
)
    requires
        conditions_are(args, c, fuel, truths),
    ensures
        eval::call_value(Func::And, args, c, fuel + 2) == gives(
            if truths.contains(false) {
                "0"@
            } else {
                "1"@
            },
        ),
        eval::call_value(Func::Or, args, c, fuel + 2) == gives(
            if truths.contains(true) {
                "1"@
            } else {
                "0"@
            },
        ),
        args.len() == 1 ==> eval::call_value(Func::Not, args, c, fuel + 2) == gives(
            if truths[0] {
                "0"@
            } else {
                "1"@
            },
        ),
{
    lemma_conditions(args, c, fuel, truths);
    assert((fuel + 2 - 1) as nat == fuel + 1);
    assert(eval::call_value(Func::And, args, c, fuel + 2) == eval::logical_value(
        Func::And,
        args,
        c,
        fuel + 1,
    ));
    assert(eval::call_value(Func::Or, args, c, fuel + 2) == eval::logical_value(
        Func::Or,
        args,
        c,
        fuel + 1,
    ));
    assert(eval::call_value(Func::Not, args, c, fuel + 2) == eval::logical_value(
        Func::Not,
        args,
        c,
        fuel + 1,
    ));
    if truths.contains(false) {
        let i = choose|i: int| 0 <= i < truths.len() && truths[i] == false;
        assert(!truths[i]);
    } else {
        assert forall|i: int| 0 <= i < truths.len() implies #[trigger] truths[i] by {
            assert(truths.contains(truths[i]));
        }
    }
    if truths.contains(true) {
        let i = choose|i: int| 0 <= i < truths.len() && truths[i] == true;
        assert(truths[i]);
    } else {
        assert forall|i: int| 0 <= i < truths.len() implies !#[trigger] truths[i] by {
            assert(truths.contains(truths[i]));
        }
    }
}

// ----- Comparisons -----

/// Numbers are compared as numbers, the left one first.
#[verifier::rlimit(40)]
#[verifier::spinoff_prover]
pub proof fn law_numbers_are_compared_in_order(
    c: CtxModel,
    a: Seq<char>,
    op: Seq<char>,
    b: Seq<char>,
    f: bool,
)
    requires
        numbers::is_number(a),
        numbers::is_number(calls::unquoted(b)),
        op == ">"@ || op == "<"@ || op == ">="@ || op == "<="@ || op == "="@,
        entries::get(c.answers, (Ask { op: Arith::Compare, args: seq![a, op, calls::unquoted(b)] }))
            == Some(Reply::<Seq<char>>::Flag(f)),
    ensures
        eval::compared(c, a, op, b) == gives(f),
{
    reveal_strlit("=");
    reveal_strlit("<>");
    reveal_strlit(">");
    reveal_strlit("<");
    reveal_strlit(">=");
    reveal_strlit("<=");
    assert("<>"@[0] == '<' && "<>"@[1] == '>');
    assert(">="@[0] == '>' && "<="@[1] == '=');
    assert("<>"@.len() == 2 && "="@.len() == 1 && ">"@.len() == 1 && "<"@.len() == 1);
}

pub open spec fn is_sign(ch: char) -> bool {
    ch == '<' || ch == '>' || ch == '='
}

pub open spec fn is_comparison(op: Seq<char>) -> bool {
    op == ">="@ || op == "<="@ || op == "<>"@ || op == ">"@ || op == "<"@ || op == "="@
}

proof fn lemma_signs()
    ensures
        ">="@ == seq!['>', '='],
        "<="@ == seq!['<', '='],
        "<>"@ == seq!['<', '>'],
        ">"@ == seq!['>'],
        "<"@ == seq!['<'],
        "="@ == seq!['='],
{
    reveal_strlit("=");
    reveal_strlit("<>");
    reveal_strlit(">");
    reveal_strlit("<");
    reveal_strlit(">=");
    reveal_strlit("<=");
    assert(">="@ =~= seq!['>', '=']);
    assert("<="@ =~= seq!['<', '=']);
    assert("<>"@ =~= seq!['<', '>']);
    assert(">"@ =~= seq!['>']);
    assert("<"@ =~= seq!['<']);
    assert("="@ =~= seq!['=']);
}

proof fn lemma_leading(op: Seq<char>, rest: Seq<char>, k: int)
    requires
        is_comparison(op),
        rest.len() > 0,
        !is_sign(rest[0]),
        0 <= k < 6,
    ensures
        (text::without_prefix(op + rest, eval::operators()[k]) is Some) == (eval::operators()[k]
            == op || (op.len() == 2 && eval::operators()[k] == op.take(1))),
        eval::operators()[k] == op ==> text::without_prefix(op + rest, eval::operators()[k]) == Some(
            rest,
        ),
{
    lemma_signs();
    let p = eval::operators()[k];
    let s = op + rest;
    assert(s[0] == op[0]);
    assert(s[1] == if op.len() == 2 {
        op[1]
    } else {
        rest[0]
    });
    if p.len() <= s.len() {
        assert(s.subrange(0, p.len() as int).len() == p.len());
        assert(s.subrange(0, p.len() as int)[0] == s[0]);
        if p.len() == 2 {
            assert(s.subrange(0, p.len() as int)[1] == s[1]);
        }
    }
    if p == op {
        assert(s.subrange(0, p.len() as int) == p);
        assert(s.subrange(p.len() as int, s.len() as int) == rest);
    } else if op.len() == 2 && p == op.take(1) {
        assert(s.subrange(0, p.len() as int) == p);
    } else if p.len() == op.len() {
        assert(p != op);
        if s.subrange(0, p.len() as int) == p {
            assert(p == op);
        }
    } else if p.len() == 1 {
        assert(op.take(1)[0] == op[0]);
        if p[0] == op[0] {
            assert(p == op.take(1));
        }
    } else {
        assert(p[1] != rest[0]);
    }
}

/// A criterion that begins with an operator compares with what follows the operator; the
/// longest operator that fits is meant.
#[verifier::rlimit(40)]
#[verifier::spinoff_prover]
pub proof fn law_criteria_compare_with_what_follows(
    c: CtxModel,
    value: Seq<char>,
    op: Seq<char>,
    rest: Seq<char>,
)
    requires
        is_comparison(op),
        rest.len() > 0,
        !is_sign(rest[0]),
        text::trim(op + rest) == op + rest,
    ensures
        eval::meets(c, value, op + rest) == eval::compared(c, value, op, text::trim(rest)),
{
    lemma_signs();
    lemma_leading(op, rest, 0);
    lemma_leading(op, rest, 1);
    lemma_leading(op, rest, 2);
    lemma_leading(op, rest, 3);
    lemma_leading(op, rest, 4);
    lemma_leading(op, rest, 5);
    reveal_with_fuel(eval::leading_operator, 7);
    let ops = eval::operators();
    assert(ops.len() == 6);
    assert(ops[0] == ">="@ && ops[1] == "<="@ && ops[2] == "<>"@);
    assert(ops[3] == ">"@ && ops[4] == "<"@ && ops[5] == "="@);
    assert(ops[0] != ops[1] && ops[0] != ops[2] && ops[1] != ops[2]) by {
        assert(">="@[0] != "<="@[0] && "<="@[1] != "<>"@[1] && ">="@[0] != "<>"@[0]);
    }
    assert(ops[3] != ops[4] && ops[3] != ops[5] && ops[4] != ops[5]) by {
        assert(">"@[0] != "<"@[0] && ">"@[0] != "="@[0] && "<"@[0] != "="@[0]);
    }
    assert(eval::leading_operator(op + rest, 0) == Some((op, rest)));
}

/// A criterion without an operator is met by the value that it names, and by no other.
#[verifier::rlimit(40)]
#[verifier::spinoff_prover]
pub proof fn law_plain_criteria_ask_for_the_value(c: CtxModel, value: Seq<char>, k: Seq<char>)
    requires
        k.len() > 0,
        !is_sign(k[0]),
        text::trim(k) == k,
    ensures
        eval::meets(c, value, k) == gives(value == k),
{
    lemma_signs();
    reveal_with_fuel(eval::leading_operator, 7);
    assert forall|i: int| 0 <= i < 6 implies text::without_prefix(
        k,
        #[trigger] eval::operators()[i],
    ) is None by {
        let p = eval::operators()[i];
        assert(is_sign(p[0]));
        if p.len() <= k.len() {
            assert(k.subrange(0, p.len() as int)[0] == k[0]);
        }
    }
}

pub open spec fn no_signs(s: Seq<char>) -> bool {
    forall|i: int| 0 <= i < s.len() ==> !is_sign(#[trigger] s[i])
}

proof fn lemma_found_first(s: Seq<char>, p: Seq<char>, at: int, i: int)
    requires
        0 <= i <= at,
        text::occurs_at(s, p, at),
        forall|j: int| i <= j < at ==> !#[trigger] text::occurs_at(s, p, j),
    ensures
        text::find_from(s, p, i) == Some(at),
    decreases at - i,
{
    if i < at {
        assert(!text::occurs_at(s, p, i));
        lemma_found_first(s, p, at, i + 1);
    }
}

proof fn lemma_found_nowhere(s: Seq<char>, p: Seq<char>, i: int)
    requires
        0 <= i,
        forall|j: int| i <= j ==> !#[trigger] text::occurs_at(s, p, j),
    ensures
        text::find_from(s, p, i) is None,
    decreases s.len() + 1 - i,
{
    if i + p.len() <= s.len() {
        assert(!text::occurs_at(s, p, i));
        lemma_found_nowhere(s, p, i + 1);
    }
}

/// Where an operator of the list stands between two texts without signs: where the operator
/// between them is that one, right behind the first text.
proof fn lemma_between(left: Seq<char>, op: Seq<char>, right: Seq<char>, k: int)
    requires
        is_comparison(op),
        right.len() > 0,
        no_signs(left),
        no_signs(right),
        0 <= k < 6,
        op.len() == 2 ==> k < 3,
    ensures
        text::find(left + op + right, eval::operators()[k]) == if eval::operators()[k] == op {
            Some(left.len() as int)
        } else {
            None
        },
{
    lemma_signs();
    let p = eval::operators()[k];
    let s = left + op + right;
    let n = left.len() as int;
    assert(is_sign(p[0]));
    assert(p.len() == if k < 3 {
        2nat
    } else {
        1nat
    });
    assert(!is_sign(right[0]));
    assert(s[n] == op[0]);
    assert forall|j: int| #[trigger] text::occurs_at(s, p, j) implies j == n && p == op by {
        assert(s.subrange(j, j + p.len())[0] == s[j]);
        if j < n {
            assert(s[j] == left[j]);
        } else if j >= n + op.len() {
            assert(s[j] == right[j - n - op.len()]);
        }
        if j == n {
            if p.len() == 2 {
                assert(s.subrange(j, j + 2)[1] == s[n + 1]);
                assert(s[n + 1] == if op.len() == 2 {
                    op[1]
                } else {
                    right[0]
                });
                assert(is_sign(p[1]));
                assert(p =~= op);
            } else {
                assert(op.len() == 1);
                assert(p =~= op);
            }
        } else if j == n + 1 && op.len() == 2 {
            assert(p.len() == 2);
            assert(s.subrange(j, j + 2)[1] == s[n + 2]);
            assert(s[n + 2] == right[0]);
            assert(is_sign(p[1]));
        }
    }
    if p == op {
        assert(s.subrange(n, n + op.len()) == op);
        assert(text::occurs_at(s, p, n));
        lemma_found_first(s, p, n, 0);
    } else {
        lemma_found_nowhere(s, p, 0);
    }
}

/// A condition with an operator between two texts compares what the two give, the left one
/// first.
#[verifier::rlimit(60)]
#[verifier::spinoff_prover]
pub proof fn law_conditions_compare_their_sides(
    left: Seq<char>,
    op: Seq<char>,
    right: Seq<char>,
    c: CtxModel,
    fuel: nat,
    a: Seq<char>,
    b: Seq<char>,
)
    requires
        is_comparison(op),
        right.len() > 0,
        no_signs(left),
        no_signs(right),
        eval::text_value(left, c, fuel) == gives(a),
        eval::text_value(right, c, fuel) == gives(b),
    ensures
        eval::condition_value(left + op + right, c, fuel + 1) == eval::compared(c, a, op, b),
{
    lemma_condition_sides(left, op, right);
    assert((fuel + 1 - 1) as nat == fuel);
}

#[verifier::rlimit(60)]
#[verifier::spinoff_prover]
proof fn lemma_condition_sides(left: Seq<char>, op: Seq<char>, right: Seq<char>)
    requires
        is_comparison(op),
        right.len() > 0,
        no_signs(left),
        no_signs(right),
    ensures
        eval::condition_sides(left + op + right) == Some((left, op, right)),
{
    lemma_signs();
    let s = left + op + right;
    let ops = eval::operators();
    assert(ops[0] == ">="@ && ops[1] == "<="@ && ops[2] == "<>"@);
    assert(ops[3] == ">"@ && ops[4] == "<"@ && ops[5] == "="@);
    lemma_between(left, op, right, 0);
    lemma_between(left, op, right, 1);
    lemma_between(left, op, right, 2);
    if op.len() == 1 {
        lemma_between(left, op, right, 3);
        lemma_between(left, op, right, 4);
        lemma_between(left, op, right, 5);
    }
    reveal_with_fuel(eval::inner_operator, 7);
    assert(eval::inner_operator(s, 0) == Some((op, left.len() as int)));
    assert(text::slice(s, 0, left.len() as int) == left);
    assert(text::slice(s, (left.len() + op.len()) as int, s.len() as int) == right);
}

// ----- Counting and adding up what meets a criterion -----

/// Whether the values meet a criterion or not, one by one.
pub open spec fn met_by(c: CtxModel, values: CellsModel, k: Seq<char>, met: Seq<bool>) -> bool {
    &&& met.len() == values.len()
    &&& forall|i: int|
        0 <= i < values.len() ==> #[trigger] eval::meets(c, values[i].1, k) == gives(met[i])
}

/// The texts at the places that are marked.
pub open spec fn marked_texts(texts: Seq<Seq<char>>, marks: Seq<bool>) -> Seq<Seq<char>>
    decreases marks.len(),
{
    if marks.len() == 0 {
        Seq::empty()
    } else {
        let before = marked_texts(texts, marks.drop_last());
        let i = marks.len() - 1;
        if marks[i] {
            before + seq![
                if i < texts.len() {
                    texts[i]
                } else {
                    Seq::empty()
                },
            ]
        } else {
            before
        }
    }
}

pub open spec fn how_many(marks: Seq<bool>) -> nat {
    marks.filter(|b: bool| b).len()
}

pub open spec fn texts_of(values: CellsModel) -> Seq<Seq<char>> {
    Seq::new(values.len(), |i: int| values[i].1)
}

proof fn lemma_marked_len(texts: Seq<Seq<char>>, marks: Seq<bool>)
    ensures
        marked_texts(texts, marks).len() == how_many(marks),
    decreases marks.len(),
{
    reveal(Seq::filter);
    if marks.len() > 0 {
        lemma_marked_len(texts, marks.drop_last());
    }
}

proof fn lemma_met_values(
    c: CtxModel,
    args: Args,
    from: int,
    values: CellsModel,
    sums: CellsModel,
    met: Seq<bool>,
    n: int,
)
    requires
        0 <= from,
        from + 1 < args.len(),
        values == ranges::values_in(args[from], c.sheet, c.cells),
        met_by(c, values, eval::criterion(c, args[from + 1]), met),
        0 <= n <= values.len(),
    ensures
        eval::met_values(c, args, from, 1, sums, n) == gives(
            marked_texts(texts_of(sums), met.take(n)),
        ),
    decreases n,
{
    if n > 0 {
        lemma_met_values(c, args, from, values, sums, met, n - 1);
        let k = eval::criterion(c, args[from + 1]);
        assert(eval::meets(c, values[n - 1].1, k) == gives(met[n - 1]));
        reveal_with_fuel(eval::pairs_met, 2);
        assert(eval::entry_value(values, n - 1) == values[n - 1].1);
        assert(eval::pairs_met(c, args, from, 1, n - 1) == gives(met[n - 1]));
        assert(met.take(n).drop_last() == met.take(n - 1));
        let done = marked_texts(texts_of(sums), met.take(n - 1));
        assert(done.push(eval::entry_value(sums, n - 1)) == done + seq![
            eval::entry_value(sums, n - 1),
        ]);
    } else {
        assert(met.take(0) == Seq::<bool>::empty());
    }
}

/// `COUNTIF` counts the places of a range whose values meet the criterion, and `SUMIF` asks
/// for the total of what stands at those places, in the range itself or in the one named for
/// it.
#[verifier::rlimit(40)]
#[verifier::spinoff_prover]
pub proof fn law_conditional_functions_go_by_what_meets(
    c: CtxModel,
    range: Seq<char>,
    k: Seq<char>,
    other: Seq<char>,
    met: Seq<bool>,
    fuel: nat,
)
    requires
        met_by(c, ranges::values_in(range, c.sheet, c.cells), eval::criterion(c, k), met),
    ensures
        eval::call_value(Func::Countif, seq![range, k], c, fuel + 1) == gives(
            text::decimal(how_many(met)),
        ),
        eval::call_value(Func::Countifs, seq![range, k], c, fuel + 1) == gives(
            text::decimal(how_many(met)),
        ),
        eval::call_value(Func::Sumif, seq![range, k], c, fuel + 1) == eval::number_for(
            c,
            Arith::Total,
            marked_texts(texts_of(ranges::values_in(range, c.sheet, c.cells)), met),
        ),
        eval::call_value(Func::Sumif, seq![range, k, other], c, fuel + 1) == eval::number_for(
            c,
            Arith::Total,
            marked_texts(texts_of(ranges::values_in(other, c.sheet, c.cells)), met),
        ),
        ranges::values_in(other, c.sheet, c.cells).len() == met.len() ==> eval::call_value(
            Func::Sumifs,
            seq![other, range, k],
            c,
            fuel + 1,
        ) == eval::number_for(
            c,
            Arith::Total,
            marked_texts(texts_of(ranges::values_in(other, c.sheet, c.cells)), met),
        ),
{
    let two = seq![range, k];
    let three = seq![range, k, other];
    let turned = seq![other, range, k];
    lemma_conditional_call(Func::Countif, two, c, fuel);
    lemma_conditional_call(Func::Countifs, two, c, fuel);
    lemma_conditional_call(Func::Sumif, two, c, fuel);
    lemma_conditional_call(Func::Sumif, three, c, fuel);
    lemma_conditional_call(Func::Sumifs, turned, c, fuel);
    lemma_counted(c, two, met);
    lemma_added(c, two, met);
    lemma_added_elsewhere(c, three, met);
    if ranges::values_in(other, c.sheet, c.cells).len() == met.len() {
        lemma_added_in_front(c, turned, met);
    }
}

#[verifier::spinoff_prover]
proof fn lemma_conditional_call(f: Func, args: Args, c: CtxModel, fuel: nat)
    requires
        f == Func::Countif || f == Func::Countifs || f == Func::Sumif || f == Func::Sumifs,
    ensures
        eval::call_value(f, args, c, fuel + 1) == eval::conditional_value(f, args, c),
{
}

proof fn lemma_counted(c: CtxModel, args: Args, met: Seq<bool>)
    requires
        args.len() == 2,
        met_by(c, ranges::values_in(args[0], c.sheet, c.cells), eval::criterion(c, args[1]), met),
    ensures
        eval::conditional_value(Func::Countif, args, c) == gives(text::decimal(how_many(met))),
        eval::conditional_value(Func::Countifs, args, c) == gives(text::decimal(how_many(met))),
{
    let values = ranges::values_in(args[0], c.sheet, c.cells);
    assert(met.take(values.len() as int) == met);
    lemma_met_values(c, args, 0, values, values, met, values.len() as int);
    lemma_marked_len(texts_of(values), met);
}

proof fn lemma_added(c: CtxModel, args: Args, met: Seq<bool>)
    requires
        args.len() == 2,
        met_by(c, ranges::values_in(args[0], c.sheet, c.cells), eval::criterion(c, args[1]), met),
    ensures
        eval::conditional_value(Func::Sumif, args, c) == eval::number_for(
            c,
            Arith::Total,
            marked_texts(texts_of(ranges::values_in(args[0], c.sheet, c.cells)), met),
        ),
{
    let values = ranges::values_in(args[0], c.sheet, c.cells);
    assert(met.take(values.len() as int) == met);
    lemma_met_values(c, args, 0, values, values, met, values.len() as int);
}

proof fn lemma_added_elsewhere(c: CtxModel, args: Args, met: Seq<bool>)
    requires
        args.len() == 3,
        met_by(c, ranges::values_in(args[0], c.sheet, c.cells), eval::criterion(c, args[1]), met),
    ensures
        eval::conditional_value(Func::Sumif, args, c) == eval::number_for(
            c,
            Arith::Total,
            marked_texts(texts_of(ranges::values_in(args[2], c.sheet, c.cells)), met),
        ),
{
    let values = ranges::values_in(args[0], c.sheet, c.cells);
    let sums = ranges::values_in(args[2], c.sheet, c.cells);
    assert(met.take(values.len() as int) == met);
    lemma_met_values(c, args, 0, values, sums, met, values.len() as int);
}

proof fn lemma_added_in_front(c: CtxModel, args: Args, met: Seq<bool>)
    requires
        args.len() == 3,
        met_by(c, ranges::values_in(args[1], c.sheet, c.cells), eval::criterion(c, args[2]), met),
        ranges::values_in(args[0], c.sheet, c.cells).len() == met.len(),
    ensures
        eval::conditional_value(Func::Sumifs, args, c) == eval::number_for(
            c,
            Arith::Total,
            marked_texts(texts_of(ranges::values_in(args[0], c.sheet, c.cells)), met),
        ),
{
    let values = ranges::values_in(args[1], c.sheet, c.cells);
    let sums = ranges::values_in(args[0], c.sheet, c.cells);
    assert(met.take(values.len() as int) == met);
    lemma_met_values(c, args, 1, values, sums, met, values.len() as int);
}

// ----- Looking up -----

proof fn lemma_row_with(rows: Seq<CellsModel>, x: Seq<char>, i: int)
    requires
        0 <= i,
    ensures
        match eval::row_with(rows, x, i) {
            Some(at) => i <= at < rows.len() && rows[at].len() > 0 && rows[at][0].1 == x
                && forall|j: int|
                i <= j < at && (#[trigger] rows[j]).len() > 0 ==> rows[j][0].1 != x,
            None => forall|j: int|
                i <= j < rows.len() && (#[trigger] rows[j]).len() > 0 ==> rows[j][0].1 != x,
        },
    decreases rows.len() - i,
{
    if i < rows.len() {
        lemma_row_with(rows, x, i + 1);
    }
}

/// Whether a row is the first of the range that begins with a text.
pub open spec fn first_row_with(rows: Seq<CellsModel>, x: Seq<char>, at: int) -> bool {
    &&& 0 <= at < rows.len()
    &&& rows[at].len() > 0
    &&& rows[at][0].1 == x
    &&& forall|j: int| 0 <= j < at && (#[trigger] rows[j]).len() > 0 ==> rows[j][0].1 != x
}

/// `VLOOKUP` gives what stands in the given column of the first row of the range that begins
/// with the text that is looked for, and fails where no row does.
#[verifier::rlimit(40)]
#[verifier::spinoff_prover]
pub proof fn law_vlookup_takes_the_first_row(
    c: CtxModel,
    args: Args,
    fuel: nat,
    x: Seq<char>,
    col: usize,
    at: int,
)
    requires
        args.len() == 3,
        eval::text_value(args[0], c, fuel) == gives(x),
        eval::counted_value(args[2], c, fuel) == gives(col),
        col > 0,
    ensures
        ({
            let rows = ranges::rows_in(args[1], c.sheet, c.cells);
            let found = eval::call_value(Func::Vlookup, args, c, fuel + 1);
            &&& first_row_with(rows, x, at) && col <= rows[at].len() ==> found == gives(
                "\""@ + rows[at][col - 1].1 + "\""@,
            )
            &&& (forall|j: int| !first_row_with(rows, x, j)) ==> found is Fail
        }),
{
    let rows = ranges::rows_in(args[1], c.sheet, c.cells);
    lemma_row_with(rows, x, 0);
    assert((fuel + 1 - 1) as nat == fuel);
    assert(eval::call_value(Func::Vlookup, args, c, fuel + 1) == eval::lookup_value(
        Func::Vlookup,
        args,
        c,
        fuel,
    ));
    if let Some(i) = eval::row_with(rows, x, 0) {
        assert(first_row_with(rows, x, i));
        if first_row_with(rows, x, at) {
            if at < i {
                assert(rows[at].len() > 0);
            }
            if i < at {
                assert(rows[i].len() > 0);
            }
        }
    } else if first_row_with(rows, x, at) {
        assert(rows[at].len() > 0);
    }
}

proof fn lemma_value_from(s: CellsModel, x: Seq<char>, i: int)
    requires
        0 <= i,
    ensures
        match eval::value_from(s, x, i) {
            Some(at) => i <= at < s.len() && s[at].1 == x && forall|j: int|
                i <= j < at ==> (#[trigger] s[j]).1 != x,
            None => forall|j: int| i <= j < s.len() ==> (#[trigger] s[j]).1 != x,
        },
    decreases s.len() - i,
{
    if i < s.len() {
        lemma_value_from(s, x, i + 1);
    }
}

/// `MATCH` gives the number of the first place of the range, counted from 1, at which the text
/// stands that is looked for, and fails where it stands nowhere.
#[verifier::rlimit(40)]
#[verifier::spinoff_prover]
pub proof fn law_match_tells_the_first_place(
    c: CtxModel,
    args: Args,
    fuel: nat,
    x: Seq<char>,
    n: nat,
)
    requires
        args.len() == 2,
        eval::text_value(args[0], c, fuel) == gives(x),
    ensures
        ({
            let values = ranges::values_in(args[1], c.sheet, c.cells);
            let found = eval::call_value(Func::Match, args, c, fuel + 1);
            &&& 1 <= n <= values.len() && values[n - 1].1 == x && (forall|j: int|
                0 <= j < n - 1 ==> (#[trigger] values[j]).1 != x) ==> found == gives(
                text::decimal(n),
            )
            &&& (forall|j: int| 0 <= j < values.len() ==> (#[trigger] values[j]).1 != x)
                ==> found is Fail
        }),
{
    let values = ranges::values_in(args[1], c.sheet, c.cells);
    lemma_value_from(values, x, 0);
    assert((fuel + 1 - 1) as nat == fuel);
    assert(eval::call_value(Func::Match, args, c, fuel + 1) == eval::lookup_value(
        Func::Match,
        args,
        c,
        fuel,
    ));
    if let Some(i) = eval::value_from(values, x, 0) {
        assert(values[i].1 == x);
        if 1 <= n <= values.len() {
            assert(values[n - 1].1 == values[n - 1].1);
        }
    }
}

/// `INDEX` gives what stands in the given row and column of the range, both counted from 1.
#[verifier::rlimit(40)]
#[verifier::spinoff_prover]
pub proof fn law_index_takes_the_place(
    c: CtxModel,
    args: Args,
    fuel: nat,
    row: usize,
    col: usize,
)
    requires
        args.len() == 3,
        eval::counted_value(args[1], c, fuel) == gives(row),
        eval::counted_value(args[2], c, fuel) == gives(col),
        1 <= row <= ranges::rows_in(args[0], c.sheet, c.cells).len(),
        1 <= col <= ranges::rows_in(args[0], c.sheet, c.cells)[row - 1].len(),
    ensures
        eval::call_value(Func::Index, args, c, fuel + 1) == gives(
            "\""@ + ranges::rows_in(args[0], c.sheet, c.cells)[row - 1][col - 1].1 + "\""@,
        ),
        eval::call_value(Func::Index, args.take(2), c, fuel + 1) == gives(
            "\""@ + ranges::rows_in(args[0], c.sheet, c.cells)[row - 1][0].1 + "\""@,
        ),
{
    assert((fuel + 1 - 1) as nat == fuel);
    let fewer = args.take(2);
    assert(fewer[0] == args[0] && fewer[1] == args[1]);
    assert(eval::call_value(Func::Index, args, c, fuel + 1) == eval::lookup_value(
        Func::Index,
        args,
        c,
        fuel,
    ));
    assert(eval::call_value(Func::Index, fewer, c, fuel + 1) == eval::lookup_value(
        Func::Index,
        fewer,
        c,
        fuel,
    ));
}

// ----- Texts -----

/// The first characters of a text and the others make up the text.
#[verifier::rlimit(40)]
#[verifier::spinoff_prover]
pub proof fn law_ends_make_up_the_text(s: Seq<char>, n: usize, m: usize)
    requires
        n + m == s.len(),
    ensures
        eval::first_chars(s, n) + eval::last_chars(s, m) == s,
        eval::first_chars(s, n).len() == n,
        eval::mid_chars(s, 1, n) == eval::first_chars(s, n),
        n < usize::MAX ==> eval::mid_chars(s, (n + 1) as usize, m) == eval::last_chars(s, m),
{
    if m == 0 {
        assert(eval::last_chars(s, m) == Seq::<char>::empty());
    }
    if s.len() > 0 {
        assert(s.subrange(0, s.len() as int) == s);
    }
}

/// What the functions on text make of the texts of their arguments: `LEN` the number of
/// characters, `LEFT` and `RIGHT` the first and the last ones, `MID` those from a place on.
#[verifier::rlimit(40)]
#[verifier::spinoff_prover]
pub proof fn law_text_functions_take_their_part(
    c: CtxModel,
    args: Args,
    fuel: nat,
    t: Seq<char>,
    n: usize,
    m: usize,
)
    requires
        args.len() == 3,
        eval::text_value(args[0], c, fuel) == gives(t),
        eval::counted_value(args[1], c, fuel) == gives(n),
        eval::counted_value(args[2], c, fuel) == gives(m),
        1 <= n <= t.len(),
        n - 1 + m <= t.len(),
    ensures
        eval::call_value(Func::Len, args.take(1), c, fuel + 1) == gives(text::decimal(t.len())),
        eval::call_value(Func::Left, args.take(2), c, fuel + 1) == gives(
            "\""@ + t.subrange(0, n as int) + "\""@,
        ),
        eval::call_value(Func::Right, args.take(2), c, fuel + 1) == gives(
            "\""@ + t.subrange(t.len() - n, t.len() as int) + "\""@,
        ),
        eval::call_value(Func::Mid, args, c, fuel + 1) == gives(
            "\""@ + t.subrange(n - 1, n - 1 + m) + "\""@,
        ),
        eval::call_value(Func::Trim, args.take(1), c, fuel + 1) == gives(
            "\""@ + text::trim(t) + "\""@,
        ),
        numbers::is_number(t) ==> eval::call_value(Func::Value, args.take(1), c, fuel + 1)
            == eval::number_for(c, Arith::Format, seq![t]),
        !numbers::is_number(t) ==> eval::call_value(Func::Value, args.take(1), c, fuel + 1) is Fail,
{
    assert((fuel + 1 - 1) as nat == fuel);
    let one = args.take(1);
    let two = args.take(2);
    assert(one[0] == args[0]);
    assert(two[0] == args[0] && two[1] == args[1]);
    assert(eval::call_value(Func::Len, one, c, fuel + 1) == eval::text_call_value(
        Func::Len,
        one,
        c,
        fuel,
    ));
    assert(eval::call_value(Func::Trim, one, c, fuel + 1) == eval::text_call_value(
        Func::Trim,
        one,
        c,
        fuel,
    ));
    assert(eval::call_value(Func::Value, one, c, fuel + 1) == eval::text_call_value(
        Func::Value,
        one,
        c,
        fuel,
    ));
    assert(eval::call_value(Func::Left, two, c, fuel + 1) == eval::text_call_value(
        Func::Left,
        two,
        c,
        fuel,
    ));
    assert(eval::call_value(Func::Right, two, c, fuel + 1) == eval::text_call_value(
        Func::Right,
        two,
        c,
        fuel,
    ));
    assert(eval::call_value(Func::Mid, args, c, fuel + 1) == eval::text_call_value(
        Func::Mid,
        args,
        c,
        fuel,
    ));
    assert(t.subrange(0, t.len() as int) == t);
    let rest = t.subrange(n - 1, t.len() as int);
    assert(rest.subrange(0, rest.len() as int) == rest);
    assert(rest.subrange(0, m as int) == t.subrange(n - 1, n - 1 + m));
    assert(eval::mid_chars(t, n, m) == t.subrange(n - 1, n - 1 + m));
}

/// Whether arguments have the given texts.
pub open spec fn texts_are(args: Args, c: CtxModel, fuel: nat, texts: Seq<Seq<char>>) -> bool {
    &&& args.len() == texts.len()
    &&& forall|i: int|
        0 <= i < args.len() ==> #[trigger] eval::text_value(args[i], c, fuel) == gives(texts[i])
}

proof fn lemma_texts(args: Args, c: CtxModel, fuel: nat, texts: Seq<Seq<char>>)
    requires
        texts_are(args, c, fuel, texts),
    ensures
        eval::texts_value(args, c, fuel + 1) == gives(texts),
    decreases args.len(),
{
    if args.len() > 0 {
        let n = args.len() - 1;
        assert forall|i: int| 0 <= i < args.drop_last().len() implies #[trigger] eval::text_value(
            args.drop_last()[i],
            c,
            fuel,
        ) == gives(texts.drop_last()[i]) by {
            assert(eval::text_value(args[i], c, fuel) == gives(texts[i]));
        }
        lemma_texts(args.drop_last(), c, fuel, texts.drop_last());
        assert(eval::text_value(args[n], c, fuel) == gives(texts[n]));
        assert(texts.drop_last().push(texts[n]) == texts);
        assert((fuel + 1 - 1) as nat == fuel);
    } else {
        assert(texts == Seq::<Seq<char>>::empty());
    }
}

/// Texts one behind the other, with a text between any two of them.
pub open spec fn strung(texts: Seq<Seq<char>>, sep: Seq<char>) -> Seq<char>
    decreases texts.len(),
{
    if texts.len() == 0 {
        Seq::empty()
    } else if texts.len() == 1 {
        texts[0]
    } else {
        texts[0] + sep + strung(texts.skip(1), sep)
    }
}

proof fn lemma_strung_at_end(texts: Seq<Seq<char>>, sep: Seq<char>)
    requires
        texts.len() > 1,
    ensures
        strung(texts, sep) == strung(texts.drop_last(), sep) + sep + texts.last(),
    decreases texts.len(),
{
    if texts.len() == 2 {
        assert(texts.skip(1).len() == 1 && texts.skip(1)[0] == texts[1]);
        assert(strung(texts.skip(1), sep) == texts[1]);
        assert(strung(texts.drop_last(), sep) == texts[0]);
    } else {
        lemma_strung_at_end(texts.skip(1), sep);
        assert(texts.skip(1).drop_last() == texts.drop_last().skip(1));
        assert(texts.skip(1).last() == texts.last());
        assert(texts.drop_last()[0] == texts[0]);
        let inner = strung(texts.drop_last().skip(1), sep);
        assert(strung(texts.drop_last(), sep) == texts[0] + sep + inner);
        assert(texts[0] + sep + (inner + sep + texts.last()) == texts[0] + sep + inner + sep
            + texts.last());
    }
}

proof fn lemma_strung(texts: Seq<Seq<char>>, sep: Seq<char>)
    ensures
        text::joined(texts, sep) == strung(texts, sep),
    decreases texts.len(),
{
    if texts.len() > 1 {
        lemma_strung(texts.drop_last(), sep);
        lemma_strung_at_end(texts, sep);
    } else if texts.len() == 1 {
        assert(texts.drop_last().len() == 0);
    }
}

/// `CONCAT` puts the texts of its arguments one behind the other.
#[verifier::rlimit(40)]
#[verifier::spinoff_prover]
pub proof fn law_texts_are_strung_together(
    c: CtxModel,
    args: Args,
    fuel: nat,
    texts: Seq<Seq<char>>,
)
    requires
        texts_are(args, c, fuel, texts),
    ensures
        eval::call_value(Func::Concat, args, c, fuel + 2) == gives(
            "\""@ + strung(texts, Seq::empty()) + "\""@,
        ),
{
    lemma_texts(args, c, fuel, texts);
    lemma_strung(texts, Seq::empty());
    assert((fuel + 2 - 1) as nat == fuel + 1);
    assert(eval::call_value(Func::Concat, args, c, fuel + 2) == eval::text_call_value(
        Func::Concat,
        args,
        c,
        fuel + 1,
    ));
}

/// `TEXTJOIN` puts the texts of its arguments one behind the other with a text between them,
/// and leaves the empty ones out where it is told to.
#[verifier::spinoff_prover]
pub proof fn law_texts_are_joined_by_a_text(
    c: CtxModel,
    all: Args,
    fuel: nat,
    between: Seq<char>,
    texts: Seq<Seq<char>>,
)
    requires
        all.len() > 2,
        texts_are(all.skip(2), c, fuel, texts),
        eval::text_value(all[0], c, fuel + 1) == gives(between),
    ensures
        all[1] == "FALSE"@ ==> eval::call_value(Func::Textjoin, all, c, fuel + 2) == gives(
            "\""@ + strung(texts, between) + "\""@,
        ),
        all[1] == "TRUE"@ ==> eval::call_value(Func::Textjoin, all, c, fuel + 2) == gives(
            "\""@ + strung(texts.filter(crate::meaning::holds_something()), between) + "\""@,
        ),
{
    lemma_texts(all.skip(2), c, fuel, texts);
    lemma_textjoin(c, all, fuel + 1, between, texts);
    lemma_strung(texts, between);
    lemma_strung(text::nonempty(texts), between);
    crate::meaning::lemma_kept_values(texts);
    lemma_modes();
    assert(fuel + 2 == (fuel + 1) + 1);
}

proof fn lemma_textjoin(
    c: CtxModel,
    all: Args,
    fuel: nat,
    between: Seq<char>,
    texts: Seq<Seq<char>>,
)
    requires
        all.len() > 2,
        eval::texts_value(all.skip(2), c, fuel) == gives(texts),
        eval::text_value(all[0], c, fuel) == gives(between),
    ensures
        eval::call_value(Func::Textjoin, all, c, fuel + 1) == gives(
            calls::quoted(
                text::joined(
                    if text::like(text::trim(all[1]), "TRUE"@) {
                        text::nonempty(texts)
                    } else {
                        texts
                    },
                    between,
                ),
            ),
        ),
{
    assert(all.subrange(2, all.len() as int) == all.skip(2));
    assert((fuel + 1 - 1) as nat == fuel);
    assert(eval::call_value(Func::Textjoin, all, c, fuel + 1) == eval::text_call_value(
        Func::Textjoin,
        all,
        c,
        fuel,
    ));
}

proof fn lemma_modes()
    ensures
        text::like(text::trim("TRUE"@), "TRUE"@),
        !text::like(text::trim("FALSE"@), "TRUE"@),
        "TRUE"@ != "FALSE"@,
{
    reveal_strlit("TRUE");
    reveal_strlit("FALSE");
    crate::meaning::lemma_trimmed("TRUE"@);
    crate::meaning::lemma_trimmed("FALSE"@);
    assert(text::lower("FALSE"@).len() == 5);
    assert(text::lower("TRUE"@).len() == 4);
}

/// `&` puts the texts of its operands one behind the other.
#[verifier::rlimit(40)]
#[verifier::spinoff_prover]
pub proof fn law_operands_are_strung_together(
    c: CtxModel,
    expr: Seq<char>,
    fuel: nat,
    texts: Seq<Seq<char>>,
)
    requires
        calls::operands(expr).len() > 1,
        texts_are(calls::operands(expr), c, fuel, texts),
    ensures
        eval::amp_value(expr, c, fuel + 2) == gives("\""@ + strung(texts, Seq::empty()) + "\""@),
{
    lemma_texts(calls::operands(expr), c, fuel, texts);
    lemma_strung(texts, Seq::empty());
    assert((fuel + 2 - 1) as nat == fuel + 1);
}

/// `ROUND` rounds its first argument to as many decimals as the second says.
#[verifier::rlimit(40)]
#[verifier::spinoff_prover]
pub proof fn law_round_rounds_the_first(
    c: CtxModel,
    args: Args,
    fuel: nat,
    x: Seq<char>,
    places: Seq<char>,
)
    requires
        args.len() == 2,
        eval::numeric_value(args[0], c, fuel) == gives(x),
        eval::numeric_value(args[1], c, fuel) == gives(places),
    ensures
        eval::call_value(Func::Round, args, c, fuel + 1) == eval::number_for(
            c,
            Arith::Round,
            seq![x, places],
        ),
{
    assert((fuel + 1 - 1) as nat == fuel);
    assert(eval::call_value(Func::Round, args, c, fuel + 1) == eval::round_value(args, c, fuel));
}

/// A number format with some zeros behind the point asks for as many decimals, in percent
/// where a percent sign follows them.
#[verifier::rlimit(40)]
#[verifier::spinoff_prover]
pub proof fn law_formats_ask_for_their_decimals(c: CtxModel, value: Seq<char>, n: nat)
    requires
        n > 0,
    ensures
        eval::formatted(c, value, "0."@ + Seq::new(n, |i: int| '0')) == eval::number_for(
            c,
            Arith::Fixed,
            seq![value, text::decimal(n)],
        ),
        eval::formatted(c, value, "0."@ + Seq::new(n, |i: int| '0') + "%"@) == eval::number_for(
            c,
            Arith::Percent,
            seq![value, text::decimal(n)],
        ),
        eval::formatted(c, value, "0"@) == eval::number_for(
            c,
            Arith::Fixed,
            seq![value, text::decimal(0)],
        ),
        eval::formatted(c, value, "0%"@) == eval::number_for(
            c,
            Arith::Percent,
            seq![value, text::decimal(0)],
        ),
{
    reveal_strlit("0.");
    reveal_strlit("%");
    reveal_strlit("0");
    reveal_strlit("0%");
    let zeros = Seq::new(n, |i: int| '0');
    let a = "0."@ + zeros;
    let b = a + "%"@;
    crate::meaning::lemma_trimmed(a);
    crate::meaning::lemma_trimmed(b);
    crate::meaning::lemma_trimmed("0"@);
    crate::meaning::lemma_trimmed("0%"@);
    assert(a.subrange(0, 2) == "0."@);
    assert(a.subrange(2, a.len() as int) == zeros);
    assert(b.subrange(0, 2) == "0."@);
    let tail = zeros + "%"@;
    assert(b.subrange(2, b.len() as int) == tail);
    assert(tail[n as int] == '%');
    assert(!eval::all_zeros(tail)) by {
        assert(tail[n as int] != '0');
    }
    assert(tail.subrange(tail.len() - 1, tail.len() as int) == "%"@);
    assert(tail.subrange(0, tail.len() - 1) == zeros);
    assert("0%"@.subrange(0, 2)[1] == '%');
    assert("0."@[1] == '.');
    assert(a.len() > 1 && b.len() > 1 && "0"@.len() == 1);
    assert("0%"@.len() == 2);
}

} // verus!
